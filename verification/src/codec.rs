//! The frame codec: cutting discrete protocol frames out of a growing byte
//! buffer.
//!
//! A frame is a block of `Key: Value` lines closed by a blank line (two
//! consecutive line feeds).  When the block carries a `Content-Length`
//! header, exactly that many raw bytes follow the blank line and form the
//! frame's body.  Nothing is consumed from the buffer until a whole frame
//! has arrived.

use vstd::prelude::*;

verus! {

use crate::error::EslError;
use crate::headers::HeaderMap;
use crate::strutil::{bytes_to_string, chars_of_bytes};

/// The line-feed byte that terminates header lines.
pub const LF: u8 = 10;

/// The colon that separates a header name from its value.
pub const COLON: u8 = 58;

/// The position of the first occurrence of `b` in `s` at or after `i`.
pub open spec fn spec_find_byte(s: Seq<u8>, b: u8, i: int) -> Option<int>
    decreases s.len() - i,
{
    if i < 0 || i >= s.len() {
        None
    } else if s[i] == b {
        Some(i)
    } else {
        spec_find_byte(s, b, i + 1)
    }
}

/// `spec_find_byte` finds the first occurrence and nothing earlier.
pub proof fn lemma_find_byte(s: Seq<u8>, b: u8, i: int)
    requires
        0 <= i <= s.len(),
    ensures
        match spec_find_byte(s, b, i) {
            Some(j) => i <= j < s.len() && s[j] == b && forall|k: int| i <= k < j ==> s[k] != b,
            None => forall|k: int| i <= k < s.len() ==> s[k] != b,
        },
    decreases s.len() - i,
{
    if i < s.len() && s[i] != b {
        lemma_find_byte(s, b, i + 1);
    }
}

/// One past the end of the header block: the least `e` such that bytes
/// `e - 2` and `e - 1` are both line feeds.
pub open spec fn spec_header_end_from(s: Seq<u8>, i: int) -> Option<int>
    decreases s.len() - i,
{
    if i < 1 || i >= s.len() {
        None
    } else if s[i] == LF && s[i - 1] == LF {
        Some(i + 1)
    } else {
        spec_header_end_from(s, i + 1)
    }
}

/// Where the header block of `s` ends, if a blank line has arrived.
pub open spec fn spec_header_end(s: Seq<u8>) -> Option<int> {
    spec_header_end_from(s, 1)
}

/// A found header end lies within the buffer and is at least two.
pub proof fn lemma_header_end_bounds(s: Seq<u8>, i: int)
    requires
        1 <= i,
    ensures
        match spec_header_end_from(s, i) {
            Some(e) => i + 1 <= e <= s.len() && s[e - 1] == LF && s[e - 2] == LF,
            None => true,
        },
    decreases s.len() - i,
{
    if 1 <= i < s.len() && !(s[i] == LF && s[i - 1] == LF) {
        lemma_header_end_bounds(s, i + 1);
    }
}

/// Index one past the first blank line of `s`, if one has arrived.
///
/// The header block of a frame is `s[..r - 1]` and its body, when one is
/// declared, starts at `s[r..]`.
pub fn get_header_end(s: &[u8]) -> (r: Option<usize>)
    ensures
        match r {
            Some(e) => spec_header_end(s@) == Some(e as int),
            None => spec_header_end(s@) is None,
        },
{
    let n = s.len();
    let mut i: usize = 1;
    while i < n
        invariant
            1 <= i,
            n == s@.len(),
            spec_header_end(s@) == spec_header_end_from(s@, i as int),
        decreases n - i,
    {
        if s[i] == LF && s[i - 1] == LF {
            return Some(i + 1);
        }
        i = i + 1;
    }
    None
}

/// Whitespace that is trimmed from header names and values.
pub open spec fn is_ws(b: u8) -> bool {
    b == 32 || b == 9 || b == 13
}

/// `s` without its leading whitespace.
pub open spec fn trim_start(s: Seq<u8>) -> Seq<u8>
    decreases s.len(),
{
    if s.len() > 0 && is_ws(s[0]) {
        trim_start(s.skip(1))
    } else {
        s
    }
}

/// `s` without its trailing whitespace.
pub open spec fn trim_end(s: Seq<u8>) -> Seq<u8>
    decreases s.len(),
{
    if s.len() > 0 && is_ws(s.last()) {
        trim_end(s.drop_last())
    } else {
        s
    }
}

/// `s` without surrounding whitespace.
pub open spec fn spec_trim(s: Seq<u8>) -> Seq<u8> {
    trim_end(trim_start(s))
}

proof fn lemma_trim_start_skip(s: Seq<u8>, k: int)
    requires
        0 <= k <= s.len(),
        forall|i: int| 0 <= i < k ==> is_ws(s[i]),
        k < s.len() ==> !is_ws(s[k]),
    ensures
        trim_start(s) == s.skip(k),
    decreases k,
{
    if k == 0 {
        assert(s.skip(0) =~= s);
    } else {
        lemma_trim_start_skip(s.skip(1), k - 1);
        assert(s.skip(1).skip(k - 1) =~= s.skip(k));
    }
}

proof fn lemma_trim_end_take(s: Seq<u8>, m: int)
    requires
        0 <= m <= s.len(),
        forall|i: int| m <= i < s.len() ==> is_ws(s[i]),
        m > 0 ==> !is_ws(s[m - 1]),
    ensures
        trim_end(s) == s.take(m),
    decreases s.len(),
{
    if m == s.len() {
        assert(s.take(m) =~= s);
    } else {
        assert(s.drop_last() =~= s.take(s.len() - 1));
        lemma_trim_end_take(s.take(s.len() - 1), m);
        assert(s.take(s.len() - 1).take(m) =~= s.take(m));
    }
}

/// The bounds of `s[lo..hi]` once surrounding whitespace is dropped.
fn trim_range(s: &[u8], lo: usize, hi: usize) -> (r: (usize, usize))
    requires
        lo <= hi <= s@.len(),
    ensures
        lo <= r.0 <= r.1 <= hi,
        s@.subrange(r.0 as int, r.1 as int) == spec_trim(s@.subrange(lo as int, hi as int)),
{
    let ghost sub = s@.subrange(lo as int, hi as int);
    let mut a: usize = lo;
    while a < hi && (s[a] == 32 || s[a] == 9 || s[a] == 13)
        invariant
            lo <= a <= hi <= s@.len(),
            forall|i: int| lo <= i < a ==> is_ws(s@[i]),
        decreases hi - a,
    {
        a = a + 1;
    }
    proof {
        lemma_trim_start_skip(sub, a - lo);
        assert(trim_start(sub) =~= s@.subrange(a as int, hi as int));
    }
    if a == hi {
        proof {
            assert(s@.subrange(a as int, a as int) =~= spec_trim(sub));
        }
        return (a, a);
    }
    let ghost mid = s@.subrange(a as int, hi as int);
    let mut b: usize = hi;
    while b > a && (s[b - 1] == 32 || s[b - 1] == 9 || s[b - 1] == 13)
        invariant
            lo <= a <= b <= hi <= s@.len(),
            forall|i: int| b <= i < hi ==> is_ws(s@[i]),
        decreases b,
    {
        b = b - 1;
    }
    proof {
        lemma_trim_end_take(mid, b - a);
        assert(trim_end(mid) =~= s@.subrange(a as int, b as int));
    }
    (a, b)
}

/// What one header line denotes: the name and the value, both trimmed, split
/// at the first colon.  A line without a colon is malformed.
pub open spec fn spec_parse_line(line: Seq<u8>) -> Option<(Seq<char>, Seq<char>)> {
    match spec_find_byte(line, COLON, 0) {
        Some(c) => Some(
            (
                chars_of_bytes(spec_trim(line.take(c))),
                chars_of_bytes(spec_trim(line.skip(c + 1))),
            ),
        ),
        None => None,
    }
}

/// The mapping that the header block `s` denotes, on top of `acc`: each
/// line-feed-separated line binds a name to a value, later lines winning.
/// `None` when some line has no colon.
pub open spec fn spec_parse_block_acc(s: Seq<u8>, acc: Map<Seq<char>, Seq<char>>) -> Option<
    Map<Seq<char>, Seq<char>>,
>
    decreases s.len(),
    via spec_parse_block_acc_decreases
{
    if s.len() == 0 {
        Some(acc)
    } else {
        let jo = spec_find_byte(s, LF, 0);
        let line = if jo is Some {
            s.take(jo->Some_0)
        } else {
            s
        };
        let rest = if jo is Some {
            s.skip(jo->Some_0 + 1)
        } else {
            Seq::<u8>::empty()
        };
        match spec_parse_line(line) {
            Some(kv) => spec_parse_block_acc(rest, acc.insert(kv.0, kv.1)),
            None => None,
        }
    }
}

#[via_fn]
proof fn spec_parse_block_acc_decreases(s: Seq<u8>, acc: Map<Seq<char>, Seq<char>>) {
    if s.len() > 0 {
        lemma_find_byte(s, LF, 0);
    }
}

/// The mapping that the header block `s` denotes, or `None` when some line
/// has no colon.
pub open spec fn spec_parse_block(s: Seq<u8>) -> Option<Map<Seq<char>, Seq<char>>> {
    spec_parse_block_acc(s, Map::empty())
}

/// The first occurrence of `b` in `s[from..to]`, as an index into `s`.
fn find_byte(s: &[u8], b: u8, from: usize, to: usize) -> (r: Option<usize>)
    requires
        from <= to <= s@.len(),
    ensures
        match r {
            Some(j) => from <= j < to && s@[j as int] == b && spec_find_byte(
                s@.subrange(from as int, to as int),
                b,
                0,
            ) == Some(j - from),
            None => spec_find_byte(s@.subrange(from as int, to as int), b, 0) is None,
        },
{
    let ghost sub = s@.subrange(from as int, to as int);
    let mut j: usize = from;
    while j < to
        invariant
            from <= j <= to <= s@.len(),
            sub == s@.subrange(from as int, to as int),
            forall|k: int| from <= k < j ==> s@[k] != b,
        decreases to - j,
    {
        if s[j] == b {
            proof {
                lemma_find_byte(sub, b, 0);
                if spec_find_byte(sub, b, 0) is None {
                    assert(sub[j - from] == b);
                    assert(false);
                }
                let w = spec_find_byte(sub, b, 0)->Some_0;
                assert(sub[w] == b);
                assert(sub[j - from] == b);
                if w < j - from {
                    assert(s@[w + from] == sub[w]);
                    assert(false);
                }
                if w > j - from {
                    assert(sub[j - from] != b);
                    assert(false);
                }
            }
            return Some(j);
        }
        j = j + 1;
    }
    proof {
        lemma_find_byte(sub, b, 0);
        if spec_find_byte(sub, b, 0) is Some {
            let w = spec_find_byte(sub, b, 0)->Some_0;
            assert(s@[w + from] == sub[w]);
            assert(false);
        }
    }
    None
}

/// Parses a header block into its mapping: one `Key: Value` per line, split
/// at the first colon, surrounding whitespace trimmed, later lines winning
/// on a repeated name.  A line without a colon is a fatal framing error.
pub fn parse_header(header: &[u8]) -> (r: Result<HeaderMap, EslError>)
    ensures
        match r {
            Ok(m) => spec_parse_block(header@) == Some(m@),
            Err(e) => spec_parse_block(header@) is None && e matches EslError::ApiError(_),
        },
{
    let n = header.len();
    let mut map = HeaderMap::new();
    let mut pos: usize = 0;
    proof {
        assert(header@.skip(0) =~= header@);
    }
    while pos < n
        invariant
            pos <= n == header@.len(),
            spec_parse_block(header@) == spec_parse_block_acc(
                header@.skip(pos as int),
                map@,
            ),
        decreases n - pos,
    {
        let ghost rem = header@.skip(pos as int);
        let lf = find_byte(header, LF, pos, n);
        let line_end = match lf {
            Some(j) => j,
            None => n,
        };
        proof {
            match lf {
                Some(j) => {
                    assert(spec_find_byte(rem, LF, 0) == Some(j - pos));
                    assert(rem.take(j - pos) =~= header@.subrange(pos as int, j as int));
                    assert(rem.skip(j - pos + 1) =~= header@.skip(j + 1));
                },
                None => {
                    assert(rem.take(rem.len() as int) =~= rem);
                },
            }
        }
        let ghost line = header@.subrange(pos as int, line_end as int);
        let colon = find_byte(header, COLON, pos, line_end);
        match colon {
            None => {
                proof {
                    assert(line =~= (if lf is Some {
                        rem.take(lf->Some_0 - pos)
                    } else {
                        rem
                    }));
                }
                return Err(
                    EslError::ApiError(String::from_str("header line without colon")),
                );
            },
            Some(c) => {
                proof {
                    assert(line.take(c - pos) =~= header@.subrange(pos as int, c as int));
                    assert(line.skip(c - pos + 1) =~= header@.subrange(
                        c + 1,
                        line_end as int,
                    ));
                }
                let (ks, ke) = trim_range(header, pos, c);
                let key = bytes_to_string(header, ks, ke);
                let (vs, ve) = trim_range(header, c + 1, line_end);
                let value = bytes_to_string(header, vs, ve);
                map.insert(key, value);
                let next = if line_end < n {
                    line_end + 1
                } else {
                    n
                };
                proof {
                    if lf is None {
                        assert(header@.skip(n as int) =~= Seq::<u8>::empty());
                    }
                }
                pos = next;
            },
        }
    }
    proof {
        assert(header@.skip(n as int) =~= Seq::<u8>::empty());
    }
    Ok(map)
}

/// An ASCII decimal digit.
pub open spec fn is_digit(c: char) -> bool {
    48 <= c as u32 <= 57
}

/// The value of the digit string `s` appended to an accumulator `acc`.
pub open spec fn spec_dec_rec(s: Seq<char>, acc: int) -> int
    decreases s.len(),
{
    if s.len() == 0 {
        acc
    } else {
        spec_dec_rec(s.skip(1), acc * 10 + (s[0] as u32 - 48))
    }
}

/// The non-negative integer that `s` spells in decimal, or `None` when `s`
/// is empty or holds a non-digit.
pub open spec fn spec_parse_dec(s: Seq<char>) -> Option<int> {
    if s.len() > 0 && (forall|i: int| 0 <= i < s.len() ==> is_digit(s[i])) {
        Some(spec_dec_rec(s, 0))
    } else {
        None
    }
}

/// The declared content length that `s` spells, or `None` when `s` is not a
/// decimal number that fits the machine.
pub open spec fn spec_content_length(s: Seq<char>) -> Option<usize> {
    match spec_parse_dec(s) {
        Some(n) => if n <= usize::MAX {
            Some(n as usize)
        } else {
            None
        },
        None => None,
    }
}

proof fn lemma_dec_rec_lower(s: Seq<char>, acc: int)
    requires
        acc >= 0,
        forall|i: int| 0 <= i < s.len() ==> is_digit(s[i]),
    ensures
        spec_dec_rec(s, acc) >= acc,
    decreases s.len(),
{
    if s.len() > 0 {
        assert(forall|i: int| 0 <= i < s.skip(1).len() ==> s.skip(1)[i] == s[i + 1]);
        lemma_dec_rec_lower(s.skip(1), acc * 10 + (s[0] as u32 - 48));
    }
}

/// Reads `v` as a decimal content length.
pub fn parse_content_length(v: &str) -> (r: Option<usize>)
    ensures
        r == spec_content_length(v@),
{
    let n = v.unicode_len();
    if n == 0 {
        return None;
    }
    let mut acc: usize = 0;
    let mut i: usize = 0;
    proof {
        assert(v@.skip(0) =~= v@);
    }
    while i < n
        invariant
            i <= n == v@.len(),
            0 < n,
            forall|k: int| 0 <= k < i ==> is_digit(v@[k]),
            spec_dec_rec(v@, 0) == spec_dec_rec(v@.skip(i as int), acc as int),
        decreases n - i,
    {
        let c = vstd::string::StrSliceExecFns::get_char(v, i);
        let d = c as u32;
        if d < 48 || d > 57 {
            return None;
        }
        let ghost pre = v@.skip(i as int);
        proof {
            assert(pre.skip(1) =~= v@.skip(i + 1));
        }
        let d8 = (d - 48) as usize;
        if acc > (usize::MAX - d8) / 10 {
            proof {
                if spec_parse_dec(v@) is Some {
                    let m = usize::MAX as int;
                    assert(forall|k: int| 0 <= k < pre.skip(1).len() ==> pre.skip(1)[k] == v@[
                        i + 1 + k
                    ]);
                    assert(acc * 10 + d8 > m) by (nonlinear_arith)
                        requires
                            acc > (m - d8) / 10,
                            0 <= d8 <= 9,
                            m > 100,
                            acc >= 0,
                    ;
                    lemma_dec_rec_lower(pre.skip(1), acc as int * 10 + d8);
                    assert(pre[0] == v@[i as int]);
                }
            }
            return None;
        }
        proof {
            assert(acc * 10 + d8 <= usize::MAX) by (nonlinear_arith)
                requires
                    acc <= (usize::MAX as int - d8) / 10,
                    0 <= d8 <= 9,
                    acc >= 0,
            ;
        }
        acc = acc * 10 + d8;
        i = i + 1;
    }
    proof {
        assert(v@.skip(n as int) =~= Seq::<char>::empty());
    }
    Some(acc)
}

/// What a frame denotes: its header mapping and its raw body bytes, when a
/// body was declared.
pub struct SpecFrame {
    pub headers: Map<Seq<char>, Seq<char>>,
    pub body: Option<Seq<u8>>,
}

/// One complete header-block-plus-optional-body unit of the protocol.
#[derive(Clone, Debug)]
pub struct Frame {
    pub headers: HeaderMap,
    pub body: Option<Vec<u8>>,
}

impl View for Frame {
    type V = SpecFrame;

    open spec fn view(&self) -> SpecFrame {
        SpecFrame {
            headers: self.headers@,
            body: match self.body {
                Some(b) => Some(b@),
                None => None,
            },
        }
    }
}

/// What one attempt to cut a frame off the front of a buffer yields.
pub enum SpecExtract {
    /// No complete frame has arrived; nothing is consumed.
    NeedMore,
    /// The buffer starts with an irrecoverably malformed frame.
    Malformed,
    /// The first frame, and how many bytes of the buffer it occupied.
    Complete(SpecFrame, int),
}

/// The frame at the front of the buffer `s`, if a whole one has arrived.
pub open spec fn spec_extract(s: Seq<u8>) -> SpecExtract {
    match spec_header_end(s) {
        None => SpecExtract::NeedMore,
        Some(he) => match spec_parse_block(s.take(he - 1)) {
            None => SpecExtract::Malformed,
            Some(h) => if h.contains_key("Content-Length"@) {
                match spec_content_length(h["Content-Length"@]) {
                    None => SpecExtract::Malformed,
                    Some(cl) => if s.len() - he < cl {
                        SpecExtract::NeedMore
                    } else {
                        SpecExtract::Complete(
                            SpecFrame { headers: h, body: Some(s.subrange(he, he + cl)) },
                            he + cl,
                        )
                    },
                }
            } else {
                SpecExtract::Complete(SpecFrame { headers: h, body: None }, he)
            },
        },
    }
}

/// A completed extraction consumed at least the two bytes of the blank line
/// and no more than the buffer holds.
pub proof fn lemma_extract_used_bounds(s: Seq<u8>)
    ensures
        spec_extract(s) matches SpecExtract::Complete(f, used) ==> 2 <= used <= s.len(),
{
    lemma_header_end_bounds(s, 1);
}

/// Cuts the first complete frame off the front of `buf`.
///
/// Returns the frame and the number of bytes it occupied; `Ok(None)` when
/// more bytes must arrive first (nothing is consumed in that case); an error
/// when the frame at the front is malformed: a header line without a colon,
/// or a `Content-Length` that is not a number the machine can hold.
pub fn extract_frame(buf: &[u8]) -> (r: Result<Option<(Frame, usize)>, EslError>)
    ensures
        match r {
            Ok(Some((f, used))) => spec_extract(buf@) == SpecExtract::Complete(
                f@,
                used as int,
            ),
            Ok(None) => spec_extract(buf@) is NeedMore,
            Err(e) => spec_extract(buf@) is Malformed && e matches EslError::ApiError(_),
        },
{
    let he = match get_header_end(buf) {
        Some(he) => he,
        None => {
            return Ok(None);
        },
    };
    proof {
        lemma_header_end_bounds(buf@, 1);
    }
    let block = vstd::slice::slice_subrange(buf, 0, he - 1);
    proof {
        assert(block@ =~= buf@.take(he - 1));
    }
    let headers = match parse_header(block) {
        Ok(m) => m,
        Err(e) => {
            return Err(e);
        },
    };
    let cl_value = match headers.get("Content-Length") {
        Some(v) => v,
        None => {
            let f = Frame { headers, body: None };
            return Ok(Some((f, he)));
        },
    };
    let cl = match parse_content_length(cl_value.as_str()) {
        Some(cl) => cl,
        None => {
            return Err(
                EslError::ApiError(String::from_str("Content-Length is not a valid number")),
            );
        },
    };
    if cl > buf.len() - he {
        return Ok(None);
    }
    let body = vstd::slice::slice_to_vec(vstd::slice::slice_subrange(buf, he, he + cl));
    proof {
        assert(body@ =~= buf@.subrange(he as int, he + cl));
    }
    let f = Frame { headers, body: Some(body) };
    Ok(Some((f, he + cl)))
}

/// What repeatedly cutting frames off a buffer yields: the frames in arrival
/// order, the unconsumed tail, and whether the tail is still well formed
/// (`ok` is false when the tail starts with a malformed frame).
pub struct SpecDrain {
    pub frames: Seq<SpecFrame>,
    pub rest: Seq<u8>,
    pub ok: bool,
}

/// All the complete frames at the front of `s`, in order, and the tail that
/// remains.
pub open spec fn spec_codec_drain(s: Seq<u8>) -> SpecDrain
    decreases s.len(),
    via spec_codec_drain_decreases
{
    match spec_extract(s) {
        SpecExtract::NeedMore => SpecDrain { frames: Seq::empty(), rest: s, ok: true },
        SpecExtract::Malformed => SpecDrain { frames: Seq::empty(), rest: s, ok: false },
        SpecExtract::Complete(f, used) => {
            let d = spec_codec_drain(s.skip(used));
            SpecDrain { frames: seq![f] + d.frames, rest: d.rest, ok: d.ok }
        },
    }
}

#[via_fn]
proof fn spec_codec_drain_decreases(s: Seq<u8>) {
    lemma_extract_used_bounds(s);
}

proof fn lemma_header_end_stable(s: Seq<u8>, t: Seq<u8>, i: int)
    requires
        1 <= i,
        spec_header_end_from(s, i) is Some,
    ensures
        spec_header_end_from(s + t, i) == spec_header_end_from(s, i),
    decreases s.len() - i,
{
    if i < s.len() {
        assert((s + t)[i] == s[i]);
        assert((s + t)[i - 1] == s[i - 1]);
        if !(s[i] == LF && s[i - 1] == LF) {
            lemma_header_end_stable(s, t, i + 1);
        }
    }
}

/// Once the front of a buffer holds a complete or malformed frame, more
/// bytes arriving behind it change nothing about it.
pub proof fn lemma_extract_stable(s: Seq<u8>, t: Seq<u8>)
    requires
        !(spec_extract(s) is NeedMore),
    ensures
        spec_extract(s + t) == spec_extract(s),
{
    lemma_header_end_stable(s, t, 1);
    lemma_header_end_bounds(s, 1);
    let he = spec_header_end(s)->Some_0;
    assert((s + t).take(he - 1) =~= s.take(he - 1));
    match spec_parse_block(s.take(he - 1)) {
        None => {},
        Some(h) => {
            if h.contains_key("Content-Length"@) {
                match spec_content_length(h["Content-Length"@]) {
                    None => {},
                    Some(cl) => {
                        assert(s.len() - he >= cl);
                        assert((s + t).subrange(he, he + cl) =~= s.subrange(he, he + cl));
                    },
                }
            }
        },
    }
}

/// A buffer whose extension drains without a framing error drains without
/// one itself.
pub proof fn lemma_drain_prefix_ok(s: Seq<u8>, t: Seq<u8>)
    requires
        spec_codec_drain(s + t).ok,
    ensures
        spec_codec_drain(s).ok,
    decreases s.len(),
{
    lemma_extract_used_bounds(s);
    match spec_extract(s) {
        SpecExtract::NeedMore => {},
        SpecExtract::Malformed => {
            lemma_extract_stable(s, t);
        },
        SpecExtract::Complete(f, used) => {
            lemma_extract_stable(s, t);
            assert((s + t).skip(used) =~= s.skip(used) + t);
            lemma_drain_prefix_ok(s.skip(used), t);
        },
    }
}

/// Draining a buffer and then its extension equals draining the whole:
/// frames already cut are never taken back, whatever arrives next.
pub proof fn lemma_drain_incremental(s: Seq<u8>, t: Seq<u8>)
    requires
        spec_codec_drain(s).ok,
    ensures
        spec_codec_drain(s + t).frames == spec_codec_drain(s).frames + spec_codec_drain(
            spec_codec_drain(s).rest + t,
        ).frames,
        spec_codec_drain(s + t).rest == spec_codec_drain(spec_codec_drain(s).rest + t).rest,
        spec_codec_drain(s + t).ok == spec_codec_drain(spec_codec_drain(s).rest + t).ok,
    decreases s.len(),
{
    lemma_extract_used_bounds(s);
    match spec_extract(s) {
        SpecExtract::NeedMore => {
            assert(spec_codec_drain(s).frames + spec_codec_drain(s + t).frames
                =~= spec_codec_drain(s + t).frames);
        },
        SpecExtract::Malformed => {},
        SpecExtract::Complete(f, used) => {
            lemma_extract_stable(s, t);
            assert((s + t).skip(used) =~= s.skip(used) + t);
            lemma_drain_incremental(s.skip(used), t);
            assert(seq![f] + (spec_codec_drain(s.skip(used)).frames + spec_codec_drain(
                spec_codec_drain(s).rest + t,
            ).frames) =~= (seq![f] + spec_codec_drain(s.skip(used)).frames)
                + spec_codec_drain(spec_codec_drain(s).rest + t).frames);
        },
    }
}

/// The concatenation of a sequence of byte chunks.
pub open spec fn concat_chunks(cs: Seq<Seq<u8>>) -> Seq<u8>
    decreases cs.len(),
{
    if cs.len() == 0 {
        Seq::empty()
    } else {
        cs.first() + concat_chunks(cs.drop_first())
    }
}

/// The frames cut when the chunks `cs` are fed one at a time onto the
/// leftover buffer `buf`, draining after each chunk.
pub open spec fn spec_drain_chunks(cs: Seq<Seq<u8>>, buf: Seq<u8>) -> SpecDrain
    decreases cs.len(),
{
    if cs.len() == 0 {
        SpecDrain { frames: Seq::empty(), rest: buf, ok: true }
    } else {
        let d = spec_codec_drain(buf + cs.first());
        if !d.ok {
            SpecDrain { frames: d.frames, rest: d.rest, ok: false }
        } else {
            let dd = spec_drain_chunks(cs.drop_first(), d.rest);
            SpecDrain { frames: d.frames + dd.frames, rest: dd.rest, ok: dd.ok }
        }
    }
}

/// However a well-formed byte stream is split into successive chunks,
/// feeding the chunks one at a time onto a buffer that holds no complete
/// frame cuts exactly the frames of the whole stream, in order, and leaves
/// the same tail.
pub proof fn lemma_drain_chunked(cs: Seq<Seq<u8>>, buf: Seq<u8>)
    requires
        spec_extract(buf) is NeedMore,
        spec_codec_drain(buf + concat_chunks(cs)).ok,
    ensures
        spec_drain_chunks(cs, buf).frames == spec_codec_drain(buf + concat_chunks(cs)).frames,
        spec_drain_chunks(cs, buf).rest == spec_codec_drain(buf + concat_chunks(cs)).rest,
        spec_drain_chunks(cs, buf).ok,
    decreases cs.len(),
{
    if cs.len() == 0 {
        assert(buf + concat_chunks(cs) =~= buf);
        assert(spec_drain_chunks(cs, buf).frames =~= spec_codec_drain(buf).frames);
    } else {
        let whole = buf + concat_chunks(cs);
        assert(whole =~= (buf + cs.first()) + concat_chunks(cs.drop_first()));
        lemma_drain_prefix_ok(buf + cs.first(), concat_chunks(cs.drop_first()));
        let d = spec_codec_drain(buf + cs.first());
        lemma_drain_incremental(buf + cs.first(), concat_chunks(cs.drop_first()));
        lemma_drain_self_rest(buf + cs.first());
        if spec_extract(d.rest) is Complete {
            assert(spec_codec_drain(d.rest).frames.len() > 0);
        }
        lemma_drain_chunked(cs.drop_first(), d.rest);
    }
}

/// Draining again after a drain cuts nothing further: the tail it leaves
/// holds no complete frame.
pub proof fn lemma_drain_self_rest(s: Seq<u8>)
    requires
        spec_codec_drain(s).ok,
    ensures
        spec_codec_drain(spec_codec_drain(s).rest).frames == Seq::<SpecFrame>::empty(),
        spec_codec_drain(spec_codec_drain(s).rest).rest == spec_codec_drain(s).rest,
        spec_codec_drain(spec_codec_drain(s).rest).ok,
    decreases s.len(),
{
    lemma_extract_used_bounds(s);
    match spec_extract(s) {
        SpecExtract::NeedMore => {
            assert(spec_codec_drain(s).rest == s);
        },
        SpecExtract::Malformed => {},
        SpecExtract::Complete(f, used) => {
            lemma_drain_self_rest(s.skip(used));
        },
    }
}

/// True when `s` is the byte encoding of exactly the one frame `f`.
pub open spec fn is_frame_encoding(s: Seq<u8>, f: SpecFrame) -> bool {
    spec_extract(s) == SpecExtract::Complete(f, s.len() as int)
}

/// A buffer formed by concatenating whole frame encodings drains to exactly
/// those frames, in order, with nothing left over.
pub proof fn lemma_drain_of_encodings(cs: Seq<Seq<u8>>, fs: Seq<SpecFrame>)
    requires
        cs.len() == fs.len(),
        forall|i: int| 0 <= i < cs.len() ==> is_frame_encoding(cs[i], fs[i]),
    ensures
        spec_codec_drain(concat_chunks(cs)).frames == fs,
        spec_codec_drain(concat_chunks(cs)).rest == Seq::<u8>::empty(),
        spec_codec_drain(concat_chunks(cs)).ok,
    decreases cs.len(),
{
    if cs.len() == 0 {
        assert(spec_codec_drain(Seq::<u8>::empty()).frames =~= fs);
    } else {
        let s0 = cs.first();
        let rest = concat_chunks(cs.drop_first());
        assert(is_frame_encoding(cs[0], fs[0]));
        lemma_extract_stable(s0, rest);
        assert((s0 + rest).skip(s0.len() as int) =~= rest);
        assert(forall|i: int| 0 <= i < cs.drop_first().len() ==> is_frame_encoding(
            #[trigger] cs.drop_first()[i],
            fs.drop_first()[i],
        ));
        lemma_drain_of_encodings(cs.drop_first(), fs.drop_first());
        assert(seq![fs[0]] + fs.drop_first() =~= fs);
    }
}

/// When the header block declares a body, the frame completes exactly when
/// the declared number of body bytes has arrived, and the body is byte-exact:
/// one byte short still asks for more, and nothing is consumed.
pub proof fn lemma_body_boundary(s: Seq<u8>, he: int, h: Map<Seq<char>, Seq<char>>, cl: usize)
    requires
        spec_header_end(s) == Some(he),
        spec_parse_block(s.take(he - 1)) == Some(h),
        h.contains_key("Content-Length"@),
        spec_content_length(h["Content-Length"@]) == Some(cl),
    ensures
        s.len() - he < cl ==> spec_extract(s) is NeedMore,
        s.len() - he >= cl ==> spec_extract(s) == SpecExtract::Complete(
            SpecFrame { headers: h, body: Some(s.subrange(he, he + cl)) },
            he + cl,
        ),
{
}

} // verus!
