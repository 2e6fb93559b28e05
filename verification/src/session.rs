//! The session engine: one connection's protocol state, driven by the bytes
//! the caller reads off the socket.
//!
//! The engine owns the receive buffer, the handshake state and the liveness
//! flag.  The caller's reader task hands every chunk of received bytes to
//! [`Session::on_bytes`] and gets back the events to publish, in arrival
//! order, and the replies the handshake asks it to send; it reports end of
//! stream or an I/O failure through [`Session::mark_disconnected`].  Once
//! the liveness flag has gone down it never comes back up: no method sets
//! it true again for the same session.

use vstd::prelude::*;

verus! {

use crate::auth::{AuthState, auth_step, frame_is_challenge, spec_auth_step, spec_is_challenge};
use crate::codec::{
    Frame,
    SpecFrame,
    extract_frame,
    lemma_extract_used_bounds,
    spec_codec_drain,
};
use crate::command::{auth_command, spec_auth_command};
use crate::error::EslError;
use crate::event::{Event, EventData, SpecEventData, lemma_classify_data, spec_classify,
    spec_event_data};
use crate::strutil::{lossy_chars, utf8_lossy_string};

/// What an event built from the frame `f` carries: the frame's headers, and
/// its body decoded as text and parsed when it is a flat JSON object.
pub open spec fn spec_frame_event_data(f: SpecFrame) -> SpecEventData {
    spec_event_data(
        f.headers,
        match f.body {
            None => None,
            Some(b) => Some(lossy_chars(b)),
        },
    )
}

/// What the handshake does to a run of inbound frames: which frames are
/// published on as events, which replies are sent, and where the handshake
/// ends up.
pub struct SpecStep {
    pub published: Seq<SpecFrame>,
    pub replies: Seq<Seq<char>>,
    pub auth: AuthState,
}

/// Walks the handshake over the frames in order.  A challenge frame is
/// answered with the credentials and withheld from publication; every other
/// frame steps the handshake and is published.
pub open spec fn spec_auth_fold(st: AuthState, fs: Seq<SpecFrame>, pw: Seq<char>) -> SpecStep
    decreases fs.len(),
{
    if fs.len() == 0 {
        SpecStep { published: Seq::empty(), replies: Seq::empty(), auth: st }
    } else {
        let f = fs.first();
        let rest = spec_auth_fold(spec_auth_step(st, f), fs.drop_first(), pw);
        if spec_is_challenge(f) {
            SpecStep {
                published: rest.published,
                replies: seq![spec_auth_command(pw)] + rest.replies,
                auth: rest.auth,
            }
        } else {
            SpecStep {
                published: seq![f] + rest.published,
                replies: rest.replies,
                auth: rest.auth,
            }
        }
    }
}

proof fn lemma_auth_fold_snoc(st: AuthState, fs: Seq<SpecFrame>, f: SpecFrame, pw: Seq<char>)
    ensures
        spec_auth_fold(st, fs.push(f), pw).auth == spec_auth_step(
            spec_auth_fold(st, fs, pw).auth,
            f,
        ),
        spec_auth_fold(st, fs.push(f), pw).published == spec_auth_fold(st, fs, pw).published + (
        if spec_is_challenge(f) {
            Seq::<SpecFrame>::empty()
        } else {
            seq![f]
        }),
        spec_auth_fold(st, fs.push(f), pw).replies == spec_auth_fold(st, fs, pw).replies + (
        if spec_is_challenge(f) {
            seq![spec_auth_command(pw)]
        } else {
            Seq::<Seq<char>>::empty()
        }),
    decreases fs.len(),
{
    if fs.len() == 0 {
        assert(fs.push(f).first() == f);
        assert(fs.push(f).drop_first() =~= Seq::<SpecFrame>::empty());
        assert(spec_auth_fold(spec_auth_step(st, f), Seq::<SpecFrame>::empty(), pw).published
            =~= Seq::<SpecFrame>::empty());
        assert(spec_auth_fold(spec_auth_step(st, f), Seq::<SpecFrame>::empty(), pw).replies
            =~= Seq::<Seq<char>>::empty());
        if spec_is_challenge(f) {
            assert(spec_auth_fold(st, fs.push(f), pw).published =~= spec_auth_fold(
                st,
                fs,
                pw,
            ).published);
            assert(spec_auth_fold(st, fs.push(f), pw).replies =~= spec_auth_fold(st, fs, pw).replies
                + seq![spec_auth_command(pw)]);
        } else {
            assert(spec_auth_fold(st, fs.push(f), pw).published =~= spec_auth_fold(
                st,
                fs,
                pw,
            ).published + seq![f]);
            assert(spec_auth_fold(st, fs.push(f), pw).replies =~= spec_auth_fold(
                st,
                fs,
                pw,
            ).replies);
        }
    } else {
        let g = fs.first();
        assert(fs.push(f).first() == g);
        assert(fs.push(f).drop_first() =~= fs.drop_first().push(f));
        lemma_auth_fold_snoc(spec_auth_step(st, g), fs.drop_first(), f, pw);
        let inner = spec_auth_fold(spec_auth_step(st, g), fs.drop_first(), pw);
        if spec_is_challenge(g) {
            assert(spec_auth_fold(st, fs.push(f), pw).published =~= spec_auth_fold(
                st,
                fs,
                pw,
            ).published + (if spec_is_challenge(f) {
                Seq::<SpecFrame>::empty()
            } else {
                seq![f]
            }));
            assert(spec_auth_fold(st, fs.push(f), pw).replies =~= spec_auth_fold(st, fs, pw).replies
                + (if spec_is_challenge(f) {
                seq![spec_auth_command(pw)]
            } else {
                Seq::<Seq<char>>::empty()
            }));
        } else {
            assert(spec_auth_fold(st, fs.push(f), pw).published =~= spec_auth_fold(
                st,
                fs,
                pw,
            ).published + (if spec_is_challenge(f) {
                Seq::<SpecFrame>::empty()
            } else {
                seq![f]
            }));
            assert(spec_auth_fold(st, fs.push(f), pw).replies =~= spec_auth_fold(st, fs, pw).replies
                + (if spec_is_challenge(f) {
                seq![spec_auth_command(pw)]
            } else {
                Seq::<Seq<char>>::empty()
            }));
        }
    }
}

/// One connection's protocol state, at the specification level.
pub struct SpecSession {
    pub buf: Seq<u8>,
    pub auth: AuthState,
    pub connected: bool,
    pub password: Seq<char>,
}

/// One connection's protocol state: the receive buffer, the handshake, and
/// the liveness flag.
pub struct Session {
    buf: Vec<u8>,
    auth: AuthState,
    connected: bool,
    password: String,
}

impl View for Session {
    type V = SpecSession;

    closed spec fn view(&self) -> SpecSession {
        SpecSession {
            buf: self.buf@,
            auth: self.auth,
            connected: self.connected,
            password: self.password@,
        }
    }
}

/// What one feeding of bytes yielded: the events to publish and the
/// handshake replies to send, each in order.
pub struct FeedOutput {
    pub events: Vec<Event>,
    pub replies: Vec<String>,
}

impl Session {
    /// A fresh session: empty buffer, handshake pending, connection live.
    pub fn new(password: String) -> (r: Session)
        ensures
            r@.buf == Seq::<u8>::empty(),
            r@.auth == AuthState::Pending,
            r@.connected == true,
            r@.password == password@,
    {
        Session { buf: Vec::new(), auth: AuthState::Pending, connected: true, password }
    }

    /// `Ok(true)` while the connection is live; once it has gone down,
    /// every call returns a connection error.
    pub fn is_connected(&self) -> (r: Result<bool, EslError>)
        ensures
            self@.connected ==> r == Ok::<bool, EslError>(true),
            !self@.connected ==> (r matches Err(e) && e matches EslError::ConnectionError(_)),
    {
        if self.connected {
            Ok(true)
        } else {
            Err(EslError::ConnectionError(String::from_str("disconnected")))
        }
    }

    /// Takes the connection down: the reader task calls this on end of
    /// stream or a read failure, the writer task on a write failure.  The
    /// flag is monotonic: nothing brings it back up.
    pub fn mark_disconnected(&mut self)
        ensures
            final(self)@.connected == false,
            final(self)@.buf == old(self)@.buf,
            final(self)@.auth == old(self)@.auth,
            final(self)@.password == old(self)@.password,
    {
        self.connected = false;
    }

    /// Where the handshake stands: nothing yet, success, or the error to
    /// hand the caller of connect.
    pub fn auth_result(&self) -> (r: Option<Result<(), EslError>>)
        ensures
            match r {
                None => self@.auth is Pending,
                Some(res) => match res {
                    Ok(()) => self@.auth is Authenticated,
                    Err(e) => (self@.auth is FailedAuth && e == EslError::AuthFailed) || (
                    self@.auth is FailedAcl && e == EslError::AclRejected),
                },
            },
    {
        match self.auth {
            AuthState::Pending => None,
            AuthState::Authenticated => Some(Ok(())),
            AuthState::FailedAuth => Some(Err(EslError::AuthFailed)),
            AuthState::FailedAcl => Some(Err(EslError::AclRejected)),
        }
    }

    /// Feeds bytes read off the socket into the session.
    ///
    /// Every frame completed by these bytes is cut off the buffer, walked
    /// through the handshake, and (unless it was a challenge, which is
    /// answered instead) returned as a classified event, in arrival order.
    /// A framing error is fatal: the session is marked disconnected and the
    /// error returned; nothing more will be read.
    pub fn on_bytes(&mut self, data: &[u8]) -> (r: Result<FeedOutput, EslError>)
        ensures
            ({
                let whole = old(self)@.buf + data@;
                let d = spec_codec_drain(whole);
                let a = spec_auth_fold(old(self)@.auth, d.frames, old(self)@.password);
                &&& final(self)@.buf == d.rest
                &&& final(self)@.auth == a.auth
                &&& final(self)@.password == old(self)@.password
                &&& final(self)@.connected == (old(self)@.connected && d.ok)
                &&& (r is Ok <==> d.ok)
                &&& match r {
                    Ok(out) => {
                        &&& out.replies.deep_view() == a.replies
                        &&& out.events@.len() == a.published.len()
                        &&& forall|i: int|
                            0 <= i < a.published.len() ==> (#[trigger] out.events@[i]).spec_data()@
                                == spec_frame_event_data(a.published[i]) && out.events@[i]
                                == spec_classify(out.events@[i].spec_data())
                    },
                    Err(e) => e matches EslError::ApiError(_),
                }
            }),
    {
        let ghost st0 = self.auth;
        let ghost con0 = self.connected;
        let ghost pw = self.password@;
        self.buf.extend_from_slice(data);
        proof {
            assert(self.buf@ =~= old(self)@.buf + data@);
        }
        let ghost whole = self.buf@;
        let ghost d_all = spec_codec_drain(whole);
        let mut events: Vec<Event> = Vec::new();
        let mut replies: Vec<String> = Vec::new();
        let ghost mut processed: Seq<SpecFrame> = Seq::empty();
        proof {
            assert(processed + spec_codec_drain(whole).frames =~= spec_codec_drain(whole).frames);
            assert(spec_auth_fold(st0, processed, pw).published =~= Seq::<SpecFrame>::empty());
            assert(replies.deep_view() =~= Seq::<Seq<char>>::empty());
        }
        loop
            invariant
                whole == old(self)@.buf + data@,
                d_all == spec_codec_drain(whole),
                st0 == old(self)@.auth,
                pw == old(self)@.password,
                con0 == old(self)@.connected,
                self.password@ == pw,
                self.connected == con0,
                self.auth == spec_auth_fold(st0, processed, pw).auth,
                d_all.frames == processed + spec_codec_drain(self.buf@).frames,
                d_all.rest == spec_codec_drain(self.buf@).rest,
                d_all.ok == spec_codec_drain(self.buf@).ok,
                events@.len() == spec_auth_fold(st0, processed, pw).published.len(),
                forall|i: int|
                    0 <= i < events@.len() ==> (#[trigger] events@[i]).spec_data()@
                        == spec_frame_event_data(spec_auth_fold(st0, processed, pw).published[i])
                        && events@[i] == spec_classify(events@[i].spec_data()),
                replies.deep_view() == spec_auth_fold(st0, processed, pw).replies,
            decreases self.buf@.len(),
        {
            let step = extract_frame(self.buf.as_slice());
            match step {
                Err(e) => {
                    self.connected = false;
                    proof {
                        assert(spec_codec_drain(self.buf@).rest == self.buf@);
                        assert(d_all.frames =~= processed);
                    }
                    return Err(e);
                },
                Ok(None) => {
                    proof {
                        assert(spec_codec_drain(self.buf@).rest == self.buf@);
                        assert(d_all.frames =~= processed);
                    }
                    return Ok(FeedOutput { events, replies });
                },
                Ok(Some((frame, used))) => {
                    proof {
                        lemma_extract_used_bounds(self.buf@);
                    }
                    let ghost oldbuf = self.buf@;
                    let ghost fview = frame@;
                    let tail = vstd::slice::slice_to_vec(
                        vstd::slice::slice_subrange(self.buf.as_slice(), used, self.buf.len()),
                    );
                    proof {
                        assert(tail@ =~= oldbuf.skip(used as int));
                    }
                    let challenge = frame_is_challenge(&frame);
                    self.auth = auth_step(self.auth, &frame);
                    proof {
                        lemma_auth_fold_snoc(st0, processed, fview, pw);
                    }
                    if challenge {
                        replies.push(auth_command(self.password.as_str()));
                        proof {
                            assert(replies.deep_view() =~= spec_auth_fold(
                                st0,
                                processed.push(fview),
                                pw,
                            ).replies);
                            assert(spec_auth_fold(st0, processed.push(fview), pw).published
                                =~= spec_auth_fold(st0, processed, pw).published);
                        }
                    } else {
                        let Frame { headers, body } = frame;
                        let raw = match body {
                            Some(b) => Some(utf8_lossy_string(b.as_slice())),
                            None => None,
                        };
                        let data_ev = EventData::new(headers, raw);
                        proof {
                            lemma_classify_data(data_ev);
                        }
                        events.push(Event::from(data_ev));
                        proof {
                            assert(spec_auth_fold(st0, processed.push(fview), pw).published
                                =~= spec_auth_fold(st0, processed, pw).published.push(fview));
                            assert(replies.deep_view() =~= spec_auth_fold(
                                st0,
                                processed.push(fview),
                                pw,
                            ).replies);
                        }
                    }
                    self.buf = tail;
                    proof {
                        processed = processed.push(fview);
                        assert(d_all.frames =~= processed + spec_codec_drain(self.buf@).frames);
                    }
                },
            }
        }
    }
}

} // verus!
