//! Splitting a byte stream into event-stream frames, and classifying a
//! frame's text as data, end of stream, or nothing.

use crate::text::push_char;
use vstd::prelude::*;

verus! {

/// Length of the frame delimiter that starts at `i`: 2 for a blank line
/// (`\n\n`), 4 for a CRLF blank line (`\r\n\r\n`), 0 when none starts there.
pub open spec fn delim_len_at(s: Seq<u8>, i: int) -> int {
    if 0 <= i && i + 2 <= s.len() && s[i] == 10u8 && s[i + 1] == 10u8 {
        2
    } else if 0 <= i && i + 4 <= s.len() && s[i] == 13u8 && s[i + 1] == 10u8 && s[i + 2] == 13u8
        && s[i + 3] == 10u8 {
        4
    } else {
        0
    }
}

/// The earliest position at or after `i` where a delimiter starts.
pub open spec fn first_delim_from(s: Seq<u8>, i: int) -> Option<int>
    decreases s.len() - i,
{
    if i < 0 || i >= s.len() {
        None
    } else if delim_len_at(s, i) > 0 {
        Some(i)
    } else {
        first_delim_from(s, i + 1)
    }
}

/// The complete frames of `s`, in order and without their delimiters, and
/// the bytes after the last delimiter.
pub open spec fn split_frames(s: Seq<u8>) -> (Seq<Seq<u8>>, Seq<u8>)
    decreases s.len(),
{
    match first_delim_from(s, 0) {
        Some(p) => if 0 <= p && delim_len_at(s, p) > 0 && p + delim_len_at(s, p) <= s.len() {
            let rest = split_frames(s.subrange(p + delim_len_at(s, p), s.len() as int));
            (seq![s.take(p)] + rest.0, rest.1)
        } else {
            (Seq::empty(), s)
        },
        None => (Seq::empty(), s),
    }
}

/// The byte sequences of a list of byte vectors.
pub open spec fn frames_view(v: Seq<Vec<u8>>) -> Seq<Seq<u8>> {
    v.map_values(|f: Vec<u8>| f@)
}

proof fn lemma_first_delim_found(s: Seq<u8>, i: int)
    ensures
        match first_delim_from(s, i) {
            Some(p) => i <= p && delim_len_at(s, p) > 0 && p + delim_len_at(s, p) <= s.len()
                && forall|j: int| i <= j < p ==> delim_len_at(s, j) == 0,
            None => forall|j: int| 0 <= i <= j < s.len() ==> delim_len_at(s, j) == 0,
        },
    decreases s.len() - i,
{
    if i < 0 || i >= s.len() {
    } else if delim_len_at(s, i) > 0 {
    } else {
        lemma_first_delim_found(s, i + 1);
    }
}

/// Appending bytes after a delimiter does not move the earliest delimiter.
proof fn lemma_first_delim_prefix(a: Seq<u8>, b: Seq<u8>, i: int, p: int)
    requires
        0 <= i <= p,
        first_delim_from(a, i) == Some(p),
    ensures
        first_delim_from(a + b, i) == Some(p),
        delim_len_at(a + b, p) == delim_len_at(a, p),
    decreases p - i,
{
    lemma_first_delim_found(a, i);
    let ab = a + b;
    assert(ab[p] == a[p] && ab[p + 1] == a[p + 1]);
    if delim_len_at(a, p) == 4 {
        assert(ab[p + 2] == a[p + 2] && ab[p + 3] == a[p + 3]);
    }
    if i < p {
        assert(delim_len_at(a, i) == 0);
        assert(ab[i] == a[i] && ab[i + 1] == a[i + 1]);
        if i + 4 <= a.len() {
            assert(ab[i + 2] == a[i + 2] && ab[i + 3] == a[i + 3]);
        } else if i + 2 < p {
            assert(ab[i + 2] == a[i + 2] && ab[i + 3] == a[i + 3]);
        } else if i + 2 == p {
            assert(ab[i + 2] == a[i + 2]);
            assert(ab[i + 3] == a[i + 3]);
        } else {
            assert(ab[i + 2] == a[i + 2]);
        }
        assert(delim_len_at(ab, i) == 0);
        assert(first_delim_from(a, i) == first_delim_from(a, i + 1));
        lemma_first_delim_prefix(a, b, i + 1, p);
    }
}

/// Splitting `a + b` gives the frames of `a`, then the frames of what `a`
/// left pending followed by `b`.
pub proof fn lemma_split_concat(a: Seq<u8>, b: Seq<u8>)
    ensures
        split_frames(a + b) == (
            split_frames(a).0 + split_frames(split_frames(a).1 + b).0,
            split_frames(split_frames(a).1 + b).1,
        ),
    decreases a.len(),
{
    lemma_first_delim_found(a, 0);
    match first_delim_from(a, 0) {
        Some(p) => {
            let d = delim_len_at(a, p);
            lemma_first_delim_prefix(a, b, 0, p);
            let a2 = a.subrange(p + d, a.len() as int);
            assert((a + b).subrange(p + d, (a + b).len() as int) =~= a2 + b);
            assert((a + b).take(p) =~= a.take(p));
            lemma_split_concat(a2, b);
            let f = split_frames(a2);
            let g = split_frames(f.1 + b);
            assert(seq![a.take(p)] + (f.0 + g.0) =~= (seq![a.take(p)] + f.0) + g.0);
        },
        None => {
            assert(Seq::<Seq<u8>>::empty() + split_frames(a + b).0 =~= split_frames(a + b).0);
        },
    }
}

/// Frames arrive the same whether the bytes come in one chunk or in two:
/// feeding `a` and then `b` yields the frames of `a + b`, in order, and
/// leaves the same bytes pending.
pub proof fn lemma_framing_chunks(pending: Seq<u8>, a: Seq<u8>, b: Seq<u8>)
    ensures
        ({
            let first = split_frames(pending + a);
            let second = split_frames(first.1 + b);
            let whole = split_frames(pending + (a + b));
            &&& first.0 + second.0 == whole.0
            &&& second.1 == whole.1
        }),
{
    assert(pending + (a + b) =~= (pending + a) + b);
    lemma_split_concat(pending + a, b);
}

/// What splitting leaves pending holds no complete frame.
pub proof fn lemma_split_rest_has_no_frame(s: Seq<u8>)
    ensures
        split_frames(split_frames(s).1) == (Seq::<Seq<u8>>::empty(), split_frames(s).1),
    decreases s.len(),
{
    lemma_first_delim_found(s, 0);
    match first_delim_from(s, 0) {
        Some(p) => {
            lemma_split_rest_has_no_frame(s.subrange(p + delim_len_at(s, p), s.len() as int));
        },
        None => {},
    }
}

/// The chunks joined in order.
pub open spec fn flatten(chunks: Seq<Seq<u8>>) -> Seq<u8>
    decreases chunks.len(),
{
    if chunks.len() == 0 {
        Seq::empty()
    } else {
        chunks[0] + flatten(chunks.drop_first())
    }
}

/// The frames handed out when the chunks are fed one after the other,
/// starting with `pending`, and the bytes left pending at the end.
pub open spec fn feed_chunks(pending: Seq<u8>, chunks: Seq<Seq<u8>>) -> (Seq<Seq<u8>>, Seq<u8>)
    decreases chunks.len(),
{
    if chunks.len() == 0 {
        (Seq::empty(), pending)
    } else {
        let first = split_frames(pending + chunks[0]);
        let rest = feed_chunks(first.1, chunks.drop_first());
        (first.0 + rest.0, rest.1)
    }
}

/// Feeding a byte stream in any number of chunks hands out the same frames,
/// in the same order, and leaves the same bytes pending, as feeding it in
/// one chunk.
pub proof fn lemma_framing_any_chunks(pending: Seq<u8>, chunks: Seq<Seq<u8>>)
    requires
        split_frames(pending) == (Seq::<Seq<u8>>::empty(), pending),
    ensures
        feed_chunks(pending, chunks) == split_frames(pending + flatten(chunks)),
    decreases chunks.len(),
{
    if chunks.len() == 0 {
        assert(pending + flatten(chunks) =~= pending);
    } else {
        let c = chunks[0];
        let tail = chunks.drop_first();
        let first = split_frames(pending + c);
        lemma_split_rest_has_no_frame(pending + c);
        lemma_framing_any_chunks(first.1, tail);
        lemma_split_concat(pending + c, flatten(tail));
        assert(pending + flatten(chunks) =~= (pending + c) + flatten(tail));
    }
}

/// Bytes holding no delimiter give no frame: all of them stay pending.
pub proof fn lemma_no_delim_no_frame(s: Seq<u8>)
    requires
        forall|j: int| 0 <= j < s.len() ==> delim_len_at(s, j) == 0,
    ensures
        split_frames(s).0 == Seq::<Seq<u8>>::empty(),
        split_frames(s).1 == s,
{
    lemma_first_delim_found(s, 0);
    if first_delim_from(s, 0) is Some {
        let p = first_delim_from(s, 0)->Some_0;
        assert(delim_len_at(s, p) == 0);
    }
}

/// The earliest frame delimiter in `buffer`, as (position, length).
pub fn find_delimiter(buffer: &[u8]) -> (r: Option<(usize, usize)>)
    ensures
        match first_delim_from(buffer@, 0) {
            Some(p) => r == Some((p as usize, delim_len_at(buffer@, p) as usize)),
            None => r is None,
        },
{
    let n = buffer.len();
    let mut i: usize = 0;
    while i < n
        invariant
            n == buffer@.len(),
            i <= n,
            first_delim_from(buffer@, 0) == first_delim_from(buffer@, i as int),
        decreases n - i,
    {
        if n - i >= 2 && buffer[i] == 10u8 && buffer[i + 1] == 10u8 {
            return Some((i, 2));
        }
        if n - i >= 4 && buffer[i] == 13u8 && buffer[i + 1] == 10u8 && buffer[i + 2] == 13u8
            && buffer[i + 3] == 10u8 {
            return Some((i, 4));
        }
        i += 1;
    }
    None
}

/// The bytes `s[lo..hi]` as a new vector.
fn copy_range(s: &[u8], lo: usize, hi: usize) -> (r: Vec<u8>)
    requires
        lo <= hi <= s@.len(),
    ensures
        r@ == s@.subrange(lo as int, hi as int),
{
    let mut r: Vec<u8> = Vec::new();
    let mut i = lo;
    while i < hi
        invariant
            lo <= i <= hi,
            hi <= s@.len(),
            r@ == s@.subrange(lo as int, i as int),
        decreases hi - i,
    {
        r.push(s[i]);
        assert(s@.subrange(lo as int, i + 1) =~= s@.subrange(lo as int, i as int).push(s@[i as int]));
        i += 1;
    }
    r
}

/// Buffers stream bytes and hands out complete frames.
pub struct FrameSplitter {
    buffer: Vec<u8>,
}

impl FrameSplitter {
    /// The bytes received and not yet handed out as part of a frame.
    pub closed spec fn pending(&self) -> Seq<u8> {
        self.buffer@
    }

    pub fn new() -> (r: FrameSplitter)
        ensures
            r.pending() == Seq::<u8>::empty(),
    {
        FrameSplitter { buffer: Vec::new() }
    }

    /// The bytes pending.
    pub fn pending_bytes(&self) -> (r: &[u8])
        ensures
            r@ == self.pending(),
    {
        self.buffer.as_slice()
    }

    /// Adds received bytes after those pending.
    pub fn push_bytes(&mut self, chunk: &[u8])
        ensures
            final(self).pending() == old(self).pending() + chunk@,
    {
        let mut i: usize = 0;
        let ghost start = self.buffer@;
        while i < chunk.len()
            invariant
                i <= chunk@.len(),
                self.buffer@ == start + chunk@.take(i as int),
            decreases chunk@.len() - i,
        {
            self.buffer.push(chunk[i]);
            assert(chunk@.take(i + 1) =~= chunk@.take(i as int).push(chunk@[i as int]));
            assert(self.buffer@ =~= start + chunk@.take(i + 1));
            i += 1;
        }
        assert(chunk@.take(i as int) =~= chunk@);
    }

    /// Takes the earliest complete frame, without its delimiter, and drops
    /// it and its delimiter from the pending bytes.
    pub fn next_frame(&mut self) -> (r: Option<Vec<u8>>)
        ensures
            match first_delim_from(old(self).pending(), 0) {
                Some(p) => r is Some && r->Some_0@ == old(self).pending().take(p)
                    && final(self).pending() == old(self).pending().subrange(
                    p + delim_len_at(old(self).pending(), p),
                    old(self).pending().len() as int,
                ),
                None => r is None && final(self).pending() == old(self).pending(),
            },
            split_frames(old(self).pending()) == match r {
                Some(f) => (seq![f@] + split_frames(final(self).pending()).0, split_frames(final(self).pending()).1),
                None => (Seq::<Seq<u8>>::empty(), final(self).pending()),
            },
            final(self).pending().len() <= old(self).pending().len(),
            r is Some ==> final(self).pending().len() < old(self).pending().len(),
    {
        proof {
            lemma_first_delim_found(self.buffer@, 0);
        }
        match find_delimiter(self.buffer.as_slice()) {
            Some((pos, len)) => {
                let n = self.buffer.len();
                assert(pos + len <= n);
                let frame = copy_range(self.buffer.as_slice(), 0, pos);
                let rest = copy_range(self.buffer.as_slice(), pos + len, n);
                self.buffer = rest;
                assert(frame@ =~= old(self).pending().take(pos as int));
                Some(frame)
            },
            None => None,
        }
    }

    /// Hands out every complete frame once `chunk` is added, in order.
    pub fn feed(&mut self, chunk: &[u8]) -> (r: Vec<Vec<u8>>)
        ensures
            frames_view(r@) == split_frames(old(self).pending() + chunk@).0,
            final(self).pending() == split_frames(old(self).pending() + chunk@).1,
    {
        self.push_bytes(chunk);
        let ghost all = self.pending();
        let mut out: Vec<Vec<u8>> = Vec::new();
        loop
            invariant
                split_frames(all) == (
                    frames_view(out@) + split_frames(self.pending()).0,
                    split_frames(self.pending()).1,
                ),
            ensures
                split_frames(all) == (frames_view(out@), self.pending()),
            decreases self.pending().len(),
        {
            let ghost before = self.pending();
            let ghost prev = out@;
            match self.next_frame() {
                Some(f) => {
                    let ghost fv = f@;
                    out.push(f);
                    proof {
                        assert(frames_view(out@) =~= frames_view(prev).push(fv));
                        assert(frames_view(prev) + (seq![fv] + split_frames(self.pending()).0)
                            =~= frames_view(out@) + split_frames(self.pending()).0);
                    }
                },
                None => {
                    assert(frames_view(out@) + Seq::<Seq<u8>>::empty() =~= frames_view(out@));
                    break;
                },
            }
        }
        out
    }
}

/// The text of a byte sequence read as UTF-8, invalid sequences replaced.
pub uninterp spec fn utf8_lossy(b: Seq<u8>) -> Seq<char>;

/// Relies on `String::from_utf8_lossy`: the text depends on the bytes alone.
#[verifier::external_body]
fn lossy_text(b: &[u8]) -> (r: String)
    ensures
        r@ == utf8_lossy(b@),
{
    String::from_utf8_lossy(b).into_owned()
}

/// Relies on `str::chars`: the characters of the string, in order.
#[verifier::external_body]
pub(crate) fn chars_of(s: &str) -> (r: Vec<char>)
    ensures
        r@ == s@,
{
    s.chars().collect()
}

/// Whether `c` has the Unicode White_Space property.
pub open spec fn is_space(c: char) -> bool {
    let u = c as u32;
    (9 <= u <= 13) || u == 32 || u == 0x85 || u == 0xA0 || u == 0x1680 || (0x2000 <= u <= 0x200A)
        || u == 0x2028 || u == 0x2029 || u == 0x202F || u == 0x205F || u == 0x3000
}

fn char_is_space(c: char) -> (r: bool)
    ensures
        r == is_space(c),
{
    let u = c as u32;
    (9 <= u && u <= 13) || u == 32 || u == 0x85 || u == 0xA0 || u == 0x1680 || (0x2000 <= u && u
        <= 0x200A) || u == 0x2028 || u == 0x2029 || u == 0x202F || u == 0x205F || u == 0x3000
}

/// `s` without its leading white space.
pub open spec fn trim_start(s: Seq<char>) -> Seq<char>
    decreases s.len(),
{
    if s.len() > 0 && is_space(s[0]) {
        trim_start(s.drop_first())
    } else {
        s
    }
}

/// `s` without its trailing white space.
pub open spec fn trim_end(s: Seq<char>) -> Seq<char>
    decreases s.len(),
{
    if s.len() > 0 && is_space(s.last()) {
        trim_end(s.drop_last())
    } else {
        s
    }
}

/// `s` without leading and trailing white space.
pub open spec fn trim(s: Seq<char>) -> Seq<char> {
    trim_end(trim_start(s))
}

/// The bounds of `v[lo..hi]` with its surrounding white space left out.
fn trim_range(v: &Vec<char>, lo: usize, hi: usize) -> (r: (usize, usize))
    requires
        lo <= hi <= v@.len(),
    ensures
        lo <= r.0 <= r.1 <= hi,
        v@.subrange(r.0 as int, r.1 as int) == trim(v@.subrange(lo as int, hi as int)),
{
    let mut a = lo;
    while a < hi && char_is_space(v[a])
        invariant
            lo <= a <= hi,
            hi <= v@.len(),
            trim_start(v@.subrange(lo as int, hi as int)) == trim_start(v@.subrange(a as int, hi as int)),
        decreases hi - a,
    {
        assert(v@.subrange(a as int, hi as int).drop_first() =~= v@.subrange(a + 1, hi as int));
        a += 1;
    }
    let mut b = hi;
    while b > a && char_is_space(v[b - 1])
        invariant
            a <= b <= hi,
            hi <= v@.len(),
            trim_end(v@.subrange(a as int, hi as int)) == trim_end(v@.subrange(a as int, b as int)),
        decreases b - a,
    {
        assert(v@.subrange(a as int, b as int).drop_last() =~= v@.subrange(a as int, b - 1));
        b -= 1;
    }
    (a, b)
}

/// What a frame's text stands for.
pub enum FrameKind {
    /// Carries no data line, or an empty one.
    Skip,
    /// The end-of-stream sentinel.
    Terminal,
    /// A data payload to decode.
    Data(Seq<char>),
}

/// The characters of the data-line prefix.
pub open spec fn data_prefix() -> Seq<char> {
    seq!['d', 'a', 't', 'a', ':']
}

/// The characters of the end-of-stream sentinel.
pub open spec fn done_sentinel() -> Seq<char> {
    seq!['[', 'D', 'O', 'N', 'E', ']']
}

/// Classifies a frame's text: once trimmed it must start with `data:`; what
/// follows, trimmed, is skipped when empty, ends the stream when it is the
/// sentinel, and is a payload otherwise.
pub open spec fn classify(text: Seq<char>) -> FrameKind {
    let t = trim(text);
    if t.len() >= 5 && t.take(5) == data_prefix() {
        let p = trim(t.skip(5));
        if p.len() == 0 {
            FrameKind::Skip
        } else if p == done_sentinel() {
            FrameKind::Terminal
        } else {
            FrameKind::Data(p)
        }
    } else {
        FrameKind::Skip
    }
}

/// The decoded form of one frame.
pub enum FrameEvent {
    Skip,
    Terminal,
    Data(String),
}

impl FrameEvent {
    pub open spec fn kind(&self) -> FrameKind {
        match self {
            FrameEvent::Skip => FrameKind::Skip,
            FrameEvent::Terminal => FrameKind::Terminal,
            FrameEvent::Data(s) => FrameKind::Data(s@),
        }
    }
}

/// Whether `v[lo..hi]` holds exactly the characters of `w`.
fn range_equals(v: &Vec<char>, lo: usize, hi: usize, w: &Vec<char>) -> (r: bool)
    requires
        lo <= hi <= v@.len(),
    ensures
        r == (v@.subrange(lo as int, hi as int) == w@),
{
    if hi - lo != w.len() {
        return false;
    }
    let mut i: usize = 0;
    while i < w.len()
        invariant
            hi - lo == w@.len(),
            hi <= v@.len(),
            i <= w@.len(),
            forall|j: int| 0 <= j < i ==> v@[lo + j] == w@[j],
        decreases w@.len() - i,
    {
        if v[lo + i] != w[i] {
            assert(v@.subrange(lo as int, hi as int)[i as int] != w@[i as int]);
            return false;
        }
        i += 1;
    }
    assert(v@.subrange(lo as int, hi as int) =~= w@);
    true
}

/// Classifies the text of one frame of an event stream.
pub fn classify_text(text: &str) -> (r: FrameEvent)
    ensures
        r.kind() == classify(text@),
{
    let v = chars_of(text);
    let (a, b) = trim_range(&v, 0, v.len());
    assert(v@.subrange(0, v@.len() as int) =~= v@);
    let ghost t = v@.subrange(a as int, b as int);
    let prefix = vec!['d', 'a', 't', 'a', ':'];
    assert(prefix@ =~= data_prefix());
    if b - a < 5 || !range_equals(&v, a, a + 5, &prefix) {
        assert(t.len() >= 5 ==> t.take(5) =~= v@.subrange(a as int, a + 5));
        return FrameEvent::Skip;
    }
    assert(t.take(5) =~= v@.subrange(a as int, a + 5));
    let (c, d) = trim_range(&v, a + 5, b);
    assert(t.skip(5) =~= v@.subrange(a + 5, b as int));
    if c == d {
        return FrameEvent::Skip;
    }
    let done = vec!['[', 'D', 'O', 'N', 'E', ']'];
    assert(done@ =~= done_sentinel());
    if range_equals(&v, c, d, &done) {
        return FrameEvent::Terminal;
    }
    let mut payload = String::new();
    let mut i = c;
    while i < d
        invariant
            c <= i <= d,
            d <= v@.len(),
            payload@ == v@.subrange(c as int, i as int),
        decreases d - i,
    {
        push_char(&mut payload, v[i]);
        assert(v@.subrange(c as int, i + 1) =~= v@.subrange(c as int, i as int).push(v@[i as int]));
        i += 1;
    }
    FrameEvent::Data(payload)
}

/// Classifies one frame of an event stream, its bytes read as UTF-8.
pub fn decode_frame(frame: &[u8]) -> (r: FrameEvent)
    ensures
        r.kind() == classify(utf8_lossy(frame@)),
{
    let text = lossy_text(frame);
    classify_text(text.as_str())
}

/// What the reader does next, given the bytes pending.
pub enum StepKind {
    /// A payload to decode and apply.
    Payload(Seq<char>),
    /// No complete data frame is pending: more bytes are needed.
    NeedBytes,
    /// The end-of-stream sentinel was read.
    Finished,
}

/// Scans the pending bytes frame by frame, skipping frames without data,
/// up to the first payload or sentinel; gives the step and the bytes left.
pub open spec fn scan(pending: Seq<u8>) -> (StepKind, Seq<u8>)
    decreases pending.len(),
{
    match first_delim_from(pending, 0) {
        Some(p) => if 0 <= p && delim_len_at(pending, p) > 0 && p + delim_len_at(pending, p)
            <= pending.len() {
            let rest = pending.subrange(p + delim_len_at(pending, p), pending.len() as int);
            match classify(utf8_lossy(pending.take(p))) {
                FrameKind::Skip => scan(rest),
                FrameKind::Terminal => (StepKind::Finished, rest),
                FrameKind::Data(x) => (StepKind::Payload(x), rest),
            }
        } else {
            (StepKind::NeedBytes, pending)
        },
        None => (StepKind::NeedBytes, pending),
    }
}

/// One step of reading a stream.
pub enum StreamStep {
    Payload(String),
    NeedBytes,
    Finished,
}

impl StreamStep {
    pub open spec fn kind(&self) -> StepKind {
        match self {
            StreamStep::Payload(s) => StepKind::Payload(s@),
            StreamStep::NeedBytes => StepKind::NeedBytes,
            StreamStep::Finished => StepKind::Finished,
        }
    }
}

/// Reads an event stream: buffers bytes, and hands out one payload at a
/// time until the sentinel, a failure, or the end of the bytes.
pub struct StreamReader {
    splitter: FrameSplitter,
    finished: bool,
}

impl StreamReader {
    /// The bytes received and not yet consumed.
    pub closed spec fn pending(&self) -> Seq<u8> {
        self.splitter.pending()
    }

    /// Whether the stream has ended, normally or by failure.
    pub closed spec fn is_finished(&self) -> bool {
        self.finished
    }

    pub fn new() -> (r: StreamReader)
        ensures
            r.pending() == Seq::<u8>::empty(),
            !r.is_finished(),
    {
        StreamReader { splitter: FrameSplitter::new(), finished: false }
    }

    pub fn finished(&self) -> (r: bool)
        ensures
            r == self.is_finished(),
    {
        self.finished
    }

    /// Adds bytes received from the transport.
    pub fn push_bytes(&mut self, chunk: &[u8])
        ensures
            final(self).pending() == old(self).pending() + chunk@,
            final(self).is_finished() == old(self).is_finished(),
    {
        self.splitter.push_bytes(chunk)
    }

    /// The next step: a payload, a request for more bytes, or the end.
    /// Frames without data are consumed and skipped; reading the sentinel
    /// ends the stream, and an ended stream stays ended.
    pub fn next_step(&mut self) -> (r: StreamStep)
        ensures
            old(self).is_finished() ==> r is Finished && *final(self) == *old(self),
            !old(self).is_finished() ==> r.kind() == scan(old(self).pending()).0 && final(self).pending()
                == scan(old(self).pending()).1 && final(self).is_finished() == (r is Finished),
    {
        if self.finished {
            return StreamStep::Finished;
        }
        loop
            invariant
                !self.finished,
                !old(self).is_finished(),
                scan(old(self).pending()) == scan(self.pending()),
            decreases self.pending().len(),
        {
            let ghost before = self.splitter.pending();
            proof {
                lemma_first_delim_found(before, 0);
            }
            match self.splitter.next_frame() {
                None => {
                    return StreamStep::NeedBytes;
                },
                Some(frame) => {
                    match decode_frame(frame.as_slice()) {
                        FrameEvent::Skip => {},
                        FrameEvent::Terminal => {
                            self.finished = true;
                            return StreamStep::Finished;
                        },
                        FrameEvent::Data(s) => {
                            return StreamStep::Payload(s);
                        },
                    }
                },
            }
        }
    }

    /// The byte source has closed. Pending bytes that make no complete
    /// frame are an error carrying their text; no pending bytes is a normal
    /// end. Either way the stream is over.
    pub fn close(&mut self) -> (r: Result<(), String>)
        ensures
            final(self).is_finished(),
            final(self).pending() == old(self).pending(),
            match r {
                Ok(()) => old(self).pending().len() == 0,
                Err(text) => old(self).pending().len() > 0 && text@ == utf8_lossy(old(self).pending()),
            },
    {
        self.finished = true;
        let pending = self.splitter.pending_bytes();
        if pending.len() == 0 {
            Ok(())
        } else {
            Err(lossy_text(pending))
        }
    }

    /// Ends the stream after a failure outside the reader (a transport or
    /// decode error).
    pub fn fail(&mut self)
        ensures
            final(self).is_finished(),
            final(self).pending() == old(self).pending(),
    {
        self.finished = true;
    }
}

/// A stream whose bytes end part way through a frame yields no payload and
/// no sentinel: the reader asks for more bytes, and closing it then fails
/// with the pending text.
pub proof fn lemma_truncated_stream(b: Seq<u8>)
    requires
        forall|j: int| 0 <= j < b.len() ==> delim_len_at(b, j) == 0,
    ensures
        scan(b) == (StepKind::NeedBytes, b),
        split_frames(b).0.len() == 0,
{
    lemma_first_delim_found(b, 0);
    lemma_no_delim_no_frame(b);
    if first_delim_from(b, 0) is Some {
        let p = first_delim_from(b, 0)->Some_0;
        assert(delim_len_at(b, p) == 0);
    }
}

} // verus!
