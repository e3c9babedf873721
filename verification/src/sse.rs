//! Server-sent-event framing of streamed upstream responses: where an event
//! ends in the bytes received so far, and what the proxy forwards for it.
use vstd::prelude::*;
use vstd::utf8::valid_utf8;

use crate::models::ProviderType;
use crate::providers::{transform_response, transformed_body};
use crate::text::extend_bytes;
use crate::usage::{is_usage_reported, parse_usage, usage_of, usage_reported, UsageTokens};

verus! {

/// Events larger than this without a boundary are NDJSON-style streams
/// (split at the last newline) or a broken upstream (the stream fails).
pub const MAX_SSE_BUFFER_BYTES: usize = 1048576;

/// `\r\n\r\n`.
pub open spec fn crlf2() -> Seq<u8> {
    seq![13u8, 10u8, 13u8, 10u8]
}

/// `\n\n`.
pub open spec fn lf2() -> Seq<u8> {
    seq![10u8, 10u8]
}

/// Whether `p` occurs in `b` at index `i`.
pub open spec fn occurs_at(b: Seq<u8>, p: Seq<u8>, i: int) -> bool {
    0 <= i && i + p.len() <= b.len() && b.subrange(i, i + p.len()) == p
}

/// The first index from `i` on at which `p` occurs in `b`.
pub open spec fn first_at(b: Seq<u8>, p: Seq<u8>, i: int) -> Option<int>
    decreases b.len() - i,
{
    if i < 0 || p.len() == 0 || i + p.len() > b.len() {
        None
    } else if occurs_at(b, p, i) {
        Some(i)
    } else {
        first_at(b, p, i + 1)
    }
}

/// The end of the first event in `b` whose boundary starts at `from` or
/// later: a `\r\n\r\n` boundary is preferred to a `\n\n` one.
pub open spec fn event_end(b: Seq<u8>, from: int) -> Option<int> {
    match first_at(b, crlf2(), from) {
        Some(i) => Some(i + 4),
        None => match first_at(b, lf2(), from) {
            Some(i) => Some(i + 2),
            None => None,
        },
    }
}

/// No boundary starts at `j`.
pub open spec fn no_boundary_at(b: Seq<u8>, j: int) -> bool {
    !occurs_at(b, crlf2(), j) && !occurs_at(b, lf2(), j)
}

/// No boundary starts before `k`.
pub open spec fn clear_before(b: Seq<u8>, k: int) -> bool {
    forall|j: int| 0 <= j < k ==> #[trigger] no_boundary_at(b, j)
}

proof fn lemma_first_at_none(b: Seq<u8>, p: Seq<u8>, i: int, j: int)
    requires
        0 <= i <= j,
        p.len() > 0,
        first_at(b, p, i) is None,
    ensures
        !occurs_at(b, p, j),
    decreases j - i,
{
    if i + p.len() <= b.len() && i < j {
        lemma_first_at_none(b, p, i + 1, j);
    }
}

proof fn lemma_first_at_skip(b: Seq<u8>, p: Seq<u8>, i: int, k: int)
    requires
        0 <= i <= k,
        p.len() > 0,
        forall|j: int| i <= j < k ==> !#[trigger] occurs_at(b, p, j),
    ensures
        first_at(b, p, i) == first_at(b, p, k),
    decreases k - i,
{
    if i < k && i + p.len() <= b.len() {
        lemma_first_at_skip(b, p, i + 1, k);
    }
}

proof fn lemma_first_at_found(b: Seq<u8>, p: Seq<u8>, i: int)
    ensures
        first_at(b, p, i) matches Some(k) ==> i <= k && occurs_at(b, p, k),
    decreases b.len() - i,
{
    if !(i < 0 || p.len() == 0 || i + p.len() > b.len()) && !occurs_at(b, p, i) {
        lemma_first_at_found(b, p, i + 1);
    }
}

/// Scanning from a cleared offset finds what scanning from the start does.
pub proof fn lemma_event_end_from_cleared(b: Seq<u8>, k: int)
    requires
        0 <= k,
        clear_before(b, k),
    ensures
        event_end(b, k) == event_end(b, 0),
{
    assert forall|j: int| 0 <= j < k implies !#[trigger] occurs_at(b, crlf2(), j) by {
        assert(no_boundary_at(b, j));
    }
    assert forall|j: int| 0 <= j < k implies !#[trigger] occurs_at(b, lf2(), j) by {
        assert(no_boundary_at(b, j));
    }
    lemma_first_at_skip(b, crlf2(), 0, k);
    lemma_first_at_skip(b, lf2(), 0, k);
}

/// Whether `b[i..i + p.len()]` is `p`.
fn matches_at(b: &Vec<u8>, i: usize, p: &[u8]) -> (r: bool)
    requires
        i + p@.len() <= b@.len(),
    ensures
        r == occurs_at(b@, p@, i as int),
{
    let mut k: usize = 0;
    while k < p.len()
        invariant
            k <= p@.len(),
            i + p@.len() <= b@.len(),
            b@.len() == b.len(),
            forall|t: int| 0 <= t < k ==> b@[i + t] == p@[t],
        decreases p.len() - k,
    {
        if b[i + k] != p[k] {
            assert(b@.subrange(i as int, i + p@.len())[k as int] != p@[k as int]);
            return false;
        }
        k = k + 1;
    }
    assert(b@.subrange(i as int, i + p@.len()) =~= p@);
    true
}

/// The first index from `from` on at which `p` occurs in `b`.
fn find_from(b: &Vec<u8>, p: &[u8], from: usize) -> (r: Option<usize>)
    requires
        p@.len() > 0,
    ensures
        match r {
            Some(i) => first_at(b@, p@, from as int) == Some(i as int),
            None => first_at(b@, p@, from as int) is None,
        },
{
    let mut i = from;
    while i < b.len() && p.len() <= b.len() - i
        invariant
            from <= i,
            p@.len() > 0,
            first_at(b@, p@, from as int) == first_at(b@, p@, i as int),
        decreases b.len() - i,
    {
        if matches_at(b, i, p) {
            return Some(i);
        }
        i = i + 1;
    }
    None
}

/// Bytes received from upstream and not yet forwarded.
pub struct SseBuffer {
    buf: Vec<u8>,
    /// Bytes already searched for a boundary, so that each search only looks
    /// at what arrived since (minus the last three bytes, where a boundary
    /// completed by the next chunk may start).
    scanned: usize,
}

impl SseBuffer {
    pub closed spec fn bytes(&self) -> Seq<u8> {
        self.buf@
    }

    pub closed spec fn scan_offset(&self) -> int {
        self.scanned as int
    }

    /// No boundary starts in the part already searched.
    pub closed spec fn wf(&self) -> bool {
        &&& clear_before(self.buf@, self.scanned as int)
        &&& self.scanned == 0 || self.scanned + 3 <= self.buf@.len()
    }

    pub fn new() -> (s: Self)
        ensures
            s.wf(),
            s.bytes() == Seq::<u8>::empty(),
    {
        SseBuffer { buf: Vec::new(), scanned: 0 }
    }

    pub fn len(&self) -> (n: usize)
        ensures
            n == self.bytes().len(),
    {
        self.buf.len()
    }

    /// Append a chunk received from upstream.
    pub fn push(&mut self, chunk: &[u8])
        requires
            old(self).wf(),
        ensures
            final(self).wf(),
            final(self).bytes() == old(self).bytes() + chunk@,
    {
        let ghost b0 = self.buf@;
        let mut i: usize = 0;
        while i < chunk.len()
            invariant
                i <= chunk.len(),
                self.buf@ == b0 + chunk@.take(i as int),
                self.scanned == old(self).scanned,
                clear_before(b0, self.scanned as int),
                self.scanned == 0 || self.scanned + 3 <= b0.len(),
            decreases chunk.len() - i,
        {
            self.buf.push(chunk[i]);
            i = i + 1;
            assert(self.buf@ == b0 + chunk@.take(i as int));
        }
        assert(chunk@.take(chunk.len() as int) == chunk@);
        proof {
            let b1 = self.buf@;
            assert(clear_before(b0, self.scanned as int));
            assert forall|j: int| 0 <= j < self.scanned implies #[trigger] no_boundary_at(b1, j) by {
                assert(no_boundary_at(b0, j));
                assert(b1.subrange(j, j + 4) == b0.subrange(j, j + 4));
                assert(b1.subrange(j, j + 2) == b0.subrange(j, j + 2));
            }
        }
    }
}

} // verus!

verus! {

/// The index of the last `\n` in `b`.
pub open spec fn last_newline(b: Seq<u8>) -> Option<int>
    decreases b.len(),
{
    if b.len() == 0 {
        None
    } else if b.last() == 10u8 {
        Some(b.len() - 1)
    } else {
        last_newline(b.drop_last())
    }
}

/// What `force_split_oversized` decides for a buffer: nothing below the
/// cap, else the end of its last line, else failure.
pub open spec fn oversized_split(b: Seq<u8>) -> Result<Option<int>, ()> {
    if b.len() <= MAX_SSE_BUFFER_BYTES {
        Ok(None)
    } else {
        match last_newline(b) {
            Some(i) => Ok(Some(i + 1)),
            None => Err(()),
        }
    }
}

impl SseBuffer {
    /// The end of the first complete event in the buffer, if one has arrived.
    /// Only the bytes beyond the searched part are searched, which finds
    /// exactly what a search of the whole buffer would.
    pub fn find_event_boundary(&mut self) -> (r: Option<usize>)
        requires
            old(self).wf(),
        ensures
            final(self).wf(),
            final(self).bytes() == old(self).bytes(),
            match r {
                Some(e) => event_end(old(self).bytes(), 0) == Some(e as int),
                None => event_end(old(self).bytes(), 0) is None,
            },
            match r {
                Some(e) => event_end(old(self).bytes(), old(self).scan_offset()) == Some(e as int),
                None => event_end(old(self).bytes(), old(self).scan_offset()) is None,
            },
            r matches Some(e) ==> e <= old(self).bytes().len(),
    {
        let start = if self.scanned < self.buf.len() { self.scanned } else { self.buf.len() };
        proof {
            lemma_event_end_from_cleared(self.buf@, self.scanned as int);
            lemma_event_end_from_cleared(self.buf@, start as int);
        }
        let crlf: [u8; 4] = [13u8, 10u8, 13u8, 10u8];
        let lf: [u8; 2] = [10u8, 10u8];
        assert(crlf@ == crlf2());
        assert(lf@ == lf2());
        match find_from(&self.buf, crlf.as_slice(), start) {
            Some(i) => {
                proof { lemma_first_at_found(self.buf@, crlf2(), start as int); }
                return Some(i + 4);
            },
            None => {},
        }
        match find_from(&self.buf, lf.as_slice(), start) {
            Some(i) => {
                proof { lemma_first_at_found(self.buf@, lf2(), start as int); }
                return Some(i + 2);
            },
            None => {},
        }
        let ghost b = self.buf@;
        self.scanned = if self.buf.len() >= 3 { self.buf.len() - 3 } else { 0 };
        proof {
            assert forall|j: int| 0 <= j < self.scanned implies #[trigger] no_boundary_at(b, j) by {
                if j >= start {
                    lemma_first_at_none(b, crlf2(), start as int, j);
                    lemma_first_at_none(b, lf2(), start as int, j);
                }
            }
        }
        None
    }

    /// `force_split_oversized`: over the cap, the end of the last line, or an
    /// error when there is no line boundary at all.
    pub fn force_split_oversized(&self) -> (r: Result<Option<usize>, String>)
        ensures
            match oversized_split(self.bytes()) {
                Ok(None) => r matches Ok(None),
                Ok(Some(e)) => r matches Ok(Some(x)) && x == e,
                Err(_) => r matches Err(msg) && msg@ == "SSE buffer exceeded cap without a line boundary"@,
            },
            r matches Ok(Some(x)) ==> x <= self.bytes().len(),
    {
        if self.buf.len() <= MAX_SSE_BUFFER_BYTES {
            return Ok(None);
        }
        let mut i = self.buf.len();
        assert(self.buf@.take(i as int) == self.buf@);
        while i > 0
            invariant
                i <= self.buf@.len(),
                self.buf@.len() > MAX_SSE_BUFFER_BYTES,
                last_newline(self.buf@) == last_newline(self.buf@.take(i as int)),
            decreases i,
        {
            assert(self.buf@.take(i - 1) == self.buf@.take(i as int).drop_last());
            assert(self.buf@.take(i as int).last() == self.buf@[i - 1]);
            if self.buf[i - 1] == 10u8 {
                return Ok(Some(i));
            }
            i = i - 1;
        }
        Err("SSE buffer exceeded cap without a line boundary".to_string())
    }

    /// Take the first `end` bytes off the buffer.
    pub fn split_to(&mut self, end: usize) -> (r: Vec<u8>)
        requires
            end <= old(self).bytes().len(),
        ensures
            final(self).wf(),
            r@ == old(self).bytes().take(end as int),
            final(self).bytes() == old(self).bytes().skip(end as int),
    {
        let mut head: Vec<u8> = Vec::new();
        let mut rest: Vec<u8> = Vec::new();
        let mut i: usize = 0;
        while i < self.buf.len()
            invariant
                i <= self.buf@.len(),
                end <= self.buf@.len(),
                head@ == self.buf@.take(if i < end { i as int } else { end as int }),
                rest@ == (if i < end { Seq::<u8>::empty() } else { self.buf@.subrange(end as int, i as int) }),
            decreases self.buf.len() - i,
        {
            if i < end {
                head.push(self.buf[i]);
            } else {
                rest.push(self.buf[i]);
            }
            i = i + 1;
            assert(head@ == self.buf@.take(if i < end { i as int } else { end as int }));
            assert(rest@ == (if i < end { Seq::<u8>::empty() } else { self.buf@.subrange(end as int, i as int) }));
        }
        assert(self.buf@.subrange(end as int, self.buf@.len() as int) == self.buf@.skip(end as int));
        self.buf = rest;
        self.scanned = 0;
        head
    }

    /// Take every buffered byte.
    pub fn take_all(&mut self) -> (r: Vec<u8>)
        ensures
            final(self).wf(),
            r@ == old(self).bytes(),
            final(self).bytes() == Seq::<u8>::empty(),
    {
        let mut r: Vec<u8> = Vec::new();
        std::mem::swap(&mut r, &mut self.buf);
        self.scanned = 0;
        r
    }
}

} // verus!

verus! {

/// `std::str::from_utf8(b).is_ok()`: whether `b` is UTF-8.
#[verifier::external_body]
fn is_utf8(b: &[u8]) -> (r: bool)
    ensures
        r == valid_utf8(b@),
{
    std::str::from_utf8(b).is_ok()
}

/// The index of the first `\n` in `b` from `i` on, or `b.len()`.
pub open spec fn line_end(b: Seq<u8>, i: int) -> int
    decreases b.len() - i,
{
    if i < 0 || i >= b.len() {
        b.len() as int
    } else if b[i] == 10u8 {
        i
    } else {
        line_end(b, i + 1)
    }
}

pub proof fn lemma_line_end(b: Seq<u8>, i: int)
    requires
        0 <= i <= b.len(),
    ensures
        i <= line_end(b, i) <= b.len(),
        line_end(b, i) < b.len() ==> b[line_end(b, i)] == 10u8,
        forall|k: int| i <= k < line_end(b, i) ==> b[k] != 10u8,
    decreases b.len() - i,
{
    if i < b.len() && b[i] != 10u8 {
        lemma_line_end(b, i + 1);
    }
}

/// A line without the `\r` of a `\r\n` ending.
pub open spec fn strip_cr(l: Seq<u8>) -> Seq<u8> {
    if l.len() > 0 && l.last() == 13u8 {
        l.drop_last()
    } else {
        l
    }
}

/// The lines of `b` from index `i` on, as `str::lines` yields them: split at
/// `\n`, a `\r` before it dropped, no empty line after a final `\n`.
pub open spec fn lines_from(b: Seq<u8>, i: int) -> Seq<Seq<u8>>
    decreases b.len() - i,
{
    if i < 0 || i >= b.len() {
        Seq::empty()
    } else {
        let e = line_end(b, i);
        proof {
            lemma_line_end(b, i);
        }
        if e < b.len() {
            seq![strip_cr(b.subrange(i, e))] + lines_from(b, e + 1)
        } else {
            seq![b.subrange(i, e)]
        }
    }
}

/// `data:`.
pub open spec fn data_tag() -> Seq<u8> {
    seq![100u8, 97u8, 116u8, 97u8, 58u8]
}

/// `data: `, as forwarded lines begin.
pub open spec fn data_prefix() -> Seq<u8> {
    data_tag().push(32u8)
}

/// The payload of a `data:` line, without one separating space.
pub open spec fn data_payload(line: Seq<u8>) -> Option<Seq<u8>> {
    if line.len() >= 5 && line.take(5) == data_tag() {
        let rest = line.skip(5);
        Some(if rest.len() > 0 && rest[0] == 32u8 { rest.skip(1) } else { rest })
    } else {
        None
    }
}

/// Whether `out` ends with a blank line.
pub open spec fn ends_blank(out: Seq<u8>) -> bool {
    out.len() >= 2 && out[out.len() - 1] == 10u8 && out[out.len() - 2] == 10u8
}

/// `out` after forwarding `line`: a payload reshaped by the provider, other
/// lines as they are, without a second blank line in a row.
pub open spec fn emit_line(out: Seq<u8>, line: Seq<u8>, kind: ProviderType, model: Seq<char>) -> Seq<u8> {
    match data_payload(line) {
        Some(p) => out + data_prefix() + transformed_body(kind, p, model) + seq![10u8],
        None => if line.len() > 0 || !ends_blank(out) {
            out + line + seq![10u8]
        } else {
            out
        },
    }
}

/// What is forwarded for `lines`.
pub open spec fn forwarded(lines: Seq<Seq<u8>>, kind: ProviderType, model: Seq<char>) -> Seq<u8>
    decreases lines.len(),
{
    if lines.len() == 0 {
        Seq::empty()
    } else {
        emit_line(forwarded(lines.drop_last(), kind, model), lines.last(), kind, model)
    }
}

/// The last usage that a payload among `lines` reports, if any.
pub open spec fn last_usage(lines: Seq<Seq<u8>>) -> Option<UsageTokens>
    decreases lines.len(),
{
    if lines.len() == 0 {
        None
    } else {
        match data_payload(lines.last()) {
            Some(p) if usage_reported(usage_of(p)) => Some(usage_of(p)),
            _ => last_usage(lines.drop_last()),
        }
    }
}

/// What the proxy forwards for one event: each `data:` payload reshaped by
/// the provider; an event that is not UTF-8 goes through unchanged.
pub open spec fn event_out(event: Seq<u8>, kind: ProviderType, model: Seq<char>) -> Seq<u8> {
    if valid_utf8(event) {
        forwarded(lines_from(event, 0), kind, model)
    } else {
        event
    }
}

/// The usage that the payloads of an event report last, if any.
pub open spec fn event_usage(event: Seq<u8>) -> Option<UsageTokens> {
    if valid_utf8(event) {
        last_usage(lines_from(event, 0))
    } else {
        None
    }
}

/// `b[from..to]`.
fn copy_range(b: &Vec<u8>, from: usize, to: usize) -> (r: Vec<u8>)
    requires
        from <= to <= b@.len(),
    ensures
        r@ == b@.subrange(from as int, to as int),
{
    let mut r: Vec<u8> = Vec::new();
    let mut i = from;
    while i < to
        invariant
            from <= i <= to <= b@.len(),
            r@ == b@.subrange(from as int, i as int),
        decreases to - i,
    {
        r.push(b[i]);
        i = i + 1;
        assert(r@ == b@.subrange(from as int, i as int));
    }
    r
}

/// The line of `b` that starts at `i`: where it stops, without its ending,
/// and the index of its `\n` (or `b.len()`).
fn line_at(b: &Vec<u8>, i: usize) -> (r: (usize, usize))
    requires
        i < b@.len(),
    ensures
        r.1 == line_end(b@, i as int),
        i <= r.0 <= r.1 <= b@.len(),
        lines_from(b@, i as int) == seq![b@.subrange(i as int, r.0 as int)] + (if r.1 < b@.len() {
            lines_from(b@, r.1 + 1)
        } else {
            Seq::empty()
        }),
{
    let mut e = i;
    while e < b.len() && b[e] != 10u8
        invariant
            i <= e <= b@.len(),
            line_end(b@, i as int) == line_end(b@, e as int),
        decreases b.len() - e,
    {
        e = e + 1;
    }
    proof { lemma_line_end(b@, i as int); }
    let stop = if e < b.len() && e > i && b[e - 1] == 13u8 { e - 1 } else { e };
    proof {
        if e < b.len() {
            assert(strip_cr(b@.subrange(i as int, e as int)) == b@.subrange(i as int, stop as int));
        }
    }
    (stop, e)
}

/// Forward one line of an event.
fn forward_line(
    out: &mut Vec<u8>,
    usage: &mut Option<UsageTokens>,
    b: &Vec<u8>,
    i: usize,
    stop: usize,
    kind: ProviderType,
    model_name: &str,
)
    requires
        i <= stop <= b@.len(),
    ensures
        final(out)@ == emit_line(old(out)@, b@.subrange(i as int, stop as int), kind, model_name@),
        *final(usage) == (match data_payload(b@.subrange(i as int, stop as int)) {
            Some(p) if usage_reported(usage_of(p)) => Some(usage_of(p)),
            _ => *old(usage),
        }),
{
    let ghost line = b@.subrange(i as int, stop as int);
    let is_data = stop - i >= 5 && b[i] == 100u8 && b[i + 1] == 97u8 && b[i + 2] == 116u8
        && b[i + 3] == 97u8 && b[i + 4] == 58u8;
    assert(is_data == (line.len() >= 5 && line.take(5) == data_tag())) by {
        if line.len() >= 5 {
            assert(is_data ==> line.take(5) =~= data_tag());
        }
    }
    if is_data {
        let ps = if stop - i > 5 && b[i + 5] == 32u8 { i + 6 } else { i + 5 };
        let payload = copy_range(b, ps, stop);
        assert(data_payload(line) == Some(payload@)) by {
            let rest = line.skip(5);
            if ps == i + 6 {
                assert(rest.skip(1) =~= payload@);
            } else {
                assert(rest =~= payload@);
            }
        }
        let u = parse_usage(payload.as_slice());
        if is_usage_reported(&u) {
            *usage = Some(u);
        }
        let t = transform_response(kind, payload.as_slice(), model_name);
        let prefix: [u8; 6] = [100u8, 97u8, 116u8, 97u8, 58u8, 32u8];
        assert(prefix@ == data_prefix());
        extend_bytes(out, prefix.as_slice());
        extend_bytes(out, t.as_slice());
        out.push(10u8);
    } else {
        let n = out.len();
        let blank = n >= 2 && out[n - 1] == 10u8 && out[n - 2] == 10u8;
        if stop > i || !blank {
            let l = copy_range(b, i, stop);
            extend_bytes(out, l.as_slice());
            out.push(10u8);
        }
    }
}

/// Forward one event: reshape each `data:` payload for the client, and
/// report the last usage its payloads carry.
pub fn transform_event(event: &Vec<u8>, kind: ProviderType, model_name: &str) -> (r: (Vec<u8>, Option<UsageTokens>))
    ensures
        r.0@ == event_out(event@, kind, model_name@),
        r.1 == event_usage(event@),
{
    if !is_utf8(event.as_slice()) {
        return (copy_range(event, 0, event.len()), None);
    }
    let ghost b = event@;
    let mut out: Vec<u8> = Vec::new();
    let mut usage: Option<UsageTokens> = None;
    let ghost mut done: Seq<Seq<u8>> = Seq::empty();
    let mut i: usize = 0;
    while i < event.len()
        invariant
            b == event@,
            i <= b.len(),
            lines_from(b, 0) == done + lines_from(b, i as int),
            out@ == forwarded(done, kind, model_name@),
            usage == last_usage(done),
        decreases event.len() - i,
    {
        let (stop, e) = line_at(event, i);
        let ghost line = b.subrange(i as int, stop as int);
        forward_line(&mut out, &mut usage, event, i, stop, kind, model_name);
        proof {
            assert(done.push(line).drop_last() == done);
            done = done.push(line);
        }
        if e < event.len() {
            i = e + 1;
        } else {
            i = event.len();
        }
        assert(lines_from(b, 0) == done + lines_from(b, i as int));
    }
    assert(lines_from(b, 0) == done);
    (out, usage)
}

} // verus!

verus! {

/// What a stream does on one poll.
#[derive(Debug)]
pub enum SseStep {
    /// Forward these bytes to the client.
    Emit(Vec<u8>),
    /// The stream ends now, after forwarding these bytes if there are any;
    /// the log event is written.
    End(Option<Vec<u8>>),
    /// Nothing complete is buffered: read from upstream.
    Wait,
    /// The stream had already ended.
    Closed,
}

/// The size recorded after forwarding `n` more bytes.
pub open spec fn grown(size: Option<i64>, n: nat) -> i64 {
    (match size { Some(s) => s, None => 0i64 }).wrapping_add(n as i64)
}

/// Where the next event of a buffer ends: at its first boundary, or, when
/// none has arrived and the buffer is over the cap, after its last line.
pub open spec fn next_cut(b: Seq<u8>) -> Option<int> {
    match event_end(b, 0) {
        Some(e) => Some(e),
        None => match oversized_split(b) {
            Ok(Some(e)) => Some(e),
            _ => None,
        },
    }
}

/// A buffer over the cap with no boundary and no line to split at.
pub open spec fn overflowed(b: Seq<u8>) -> bool {
    event_end(b, 0) is None && oversized_split(b) is Err
}

/// The state of one streamed response as the proxy relays it.
pub struct SseStream {
    pub buffer: SseBuffer,
    pub kind: ProviderType,
    pub model_name: String,
    /// The last usage a payload reported.
    pub user_tokens: Option<UsageTokens>,
    /// The status the log event records.
    pub status: String,
    pub error_message: Option<String>,
    pub response_body_size: Option<i64>,
    pub done: bool,
    /// Bytes received so far, and the most the response may have.
    pub total_bytes: usize,
    pub max_bytes: usize,
}

impl SseStream {
    pub closed spec fn pending(&self) -> Seq<u8> {
        self.buffer.bytes()
    }

    pub closed spec fn wf(&self) -> bool {
        self.buffer.wf()
    }

    pub fn new(kind: ProviderType, model_name: String, status: String, max_bytes: usize) -> (s: Self)
        ensures
            s.wf(),
            s.pending() == Seq::<u8>::empty(),
            s.kind == kind,
            s.model_name == model_name,
            s.status == status,
            s.user_tokens is None,
            s.error_message is None,
            s.response_body_size is None,
            !s.done,
            s.total_bytes == 0,
            s.max_bytes == max_bytes,
    {
        SseStream {
            buffer: SseBuffer::new(),
            kind,
            model_name,
            user_tokens: None,
            status,
            error_message: None,
            response_body_size: None,
            done: false,
            total_bytes: 0,
            max_bytes,
        }
    }

    /// Forward the first `end` buffered bytes as one event.
    fn split_event(&mut self, end: usize) -> (r: Vec<u8>)
        requires
            old(self).wf(),
            end <= old(self).pending().len(),
        ensures
            final(self).wf(),
            r@ == event_out(old(self).pending().take(end as int), old(self).kind, old(self).model_name@),
            final(self).pending() == old(self).pending().skip(end as int),
            final(self).user_tokens == (match event_usage(old(self).pending().take(end as int)) {
                Some(u) => Some(u),
                None => old(self).user_tokens,
            }),
            final(self).response_body_size == Some(grown(old(self).response_body_size, r@.len())),
            final(self).kind == old(self).kind,
            final(self).model_name == old(self).model_name,
            final(self).status == old(self).status,
            final(self).error_message == old(self).error_message,
            final(self).done == old(self).done,
            final(self).total_bytes == old(self).total_bytes,
            final(self).max_bytes == old(self).max_bytes,
    {
        let event = self.buffer.split_to(end);
        let (out, usage) = transform_event(&event, self.kind, self.model_name.as_str());
        match usage {
            Some(u) => {
                self.user_tokens = Some(u);
            },
            None => {},
        }
        let prev: i64 = match self.response_body_size {
            Some(s) => s,
            None => 0,
        };
        self.response_body_size = Some(prev.wrapping_add(out.len() as i64));
        out
    }

    /// Fail the stream with `status` and `message`, dropping what is buffered.
    pub fn fail_stream(&mut self, status: &str, message: &str) -> (r: SseStep)
        ensures
            r matches SseStep::End(None),
            final(self).done,
            final(self).status@ == status@,
            final(self).error_message matches Some(m) && m@ == message@,
            final(self).pending() == old(self).pending(),
            final(self).wf() == old(self).wf(),
            final(self).user_tokens == old(self).user_tokens,
            final(self).response_body_size == old(self).response_body_size,
            final(self).kind == old(self).kind,
            final(self).model_name == old(self).model_name,
            final(self).total_bytes == old(self).total_bytes,
            final(self).max_bytes == old(self).max_bytes,
    {
        self.status = status.to_string();
        self.error_message = Some(message.to_string());
        self.done = true;
        SseStep::End(None)
    }

    /// End the stream, forwarding whatever is buffered as the provider
    /// reshapes a whole body.
    pub fn finalize_stream(&mut self) -> (r: SseStep)
        requires
            old(self).wf(),
        ensures
            final(self).wf(),
            final(self).done,
            final(self).pending() == Seq::<u8>::empty(),
            match r {
                SseStep::End(Some(t)) => old(self).pending().len() > 0
                    && t@ == transformed_body(old(self).kind, old(self).pending(), old(self).model_name@),
                SseStep::End(None) => old(self).pending().len() == 0,
                _ => false,
            },
            final(self).status == old(self).status,
            final(self).error_message == old(self).error_message,
            final(self).user_tokens == old(self).user_tokens,
            final(self).response_body_size == old(self).response_body_size,
            final(self).kind == old(self).kind,
            final(self).model_name == old(self).model_name,
            final(self).total_bytes == old(self).total_bytes,
            final(self).max_bytes == old(self).max_bytes,
    {
        self.done = true;
        if self.buffer.len() > 0 {
            let rest = self.buffer.take_all();
            let t = transform_response(self.kind, rest.as_slice(), self.model_name.as_str());
            SseStep::End(Some(t))
        } else {
            let _ = self.buffer.take_all();
            SseStep::End(None)
        }
    }

    /// End the stream as timed out (status 504) after `message`.
    pub fn timeout_stream(&mut self, message: &str) -> (r: SseStep)
        requires
            old(self).wf(),
        ensures
            final(self).wf(),
            final(self).done,
            final(self).status@ == "504"@,
            final(self).error_message matches Some(m) && m@ == message@,
            final(self).pending() == Seq::<u8>::empty(),
            match r {
                SseStep::End(Some(t)) => old(self).pending().len() > 0
                    && t@ == transformed_body(old(self).kind, old(self).pending(), old(self).model_name@),
                SseStep::End(None) => old(self).pending().len() == 0,
                _ => false,
            },
            final(self).user_tokens == old(self).user_tokens,
            final(self).response_body_size == old(self).response_body_size,
            final(self).kind == old(self).kind,
            final(self).model_name == old(self).model_name,
            final(self).total_bytes == old(self).total_bytes,
            final(self).max_bytes == old(self).max_bytes,
    {
        self.status = "504".to_string();
        self.error_message = Some(message.to_string());
        self.finalize_stream()
    }

    /// Forward the next buffered event, if a complete one (or an oversized
    /// run of lines) is there.
    pub fn next_buffered(&mut self) -> (r: SseStep)
        requires
            old(self).wf(),
        ensures
            final(self).wf(),
            match next_cut(old(self).pending()) {
                Some(e) => {
                    &&& r matches SseStep::Emit(out)
                    &&& out@ == event_out(old(self).pending().take(e), old(self).kind, old(self).model_name@)
                    &&& final(self).pending() == old(self).pending().skip(e)
                    &&& final(self).user_tokens == (match event_usage(old(self).pending().take(e)) {
                        Some(u) => Some(u),
                        None => old(self).user_tokens,
                    })
                    &&& final(self).response_body_size == Some(grown(old(self).response_body_size, out@.len()))
                    &&& final(self).done == old(self).done
                    &&& final(self).status == old(self).status
                    &&& final(self).error_message == old(self).error_message
                },
                None => if overflowed(old(self).pending()) {
                    &&& r matches SseStep::End(None)
                    &&& final(self).done
                    &&& final(self).status@ == "502"@
                    &&& final(self).error_message matches Some(m)
                    &&& m@ == "SSE buffer exceeded cap without a line boundary"@
                    &&& final(self).pending() == old(self).pending()
                    &&& final(self).user_tokens == old(self).user_tokens
                    &&& final(self).response_body_size == old(self).response_body_size
                } else {
                    &&& r matches SseStep::Wait
                    &&& final(self).pending() == old(self).pending()
                    &&& final(self).done == old(self).done
                    &&& final(self).status == old(self).status
                    &&& final(self).error_message == old(self).error_message
                    &&& final(self).user_tokens == old(self).user_tokens
                    &&& final(self).response_body_size == old(self).response_body_size
                },
            },
            final(self).kind == old(self).kind,
            final(self).model_name == old(self).model_name,
            final(self).total_bytes == old(self).total_bytes,
            final(self).max_bytes == old(self).max_bytes,
    {
        match self.buffer.find_event_boundary() {
            Some(end) => {
                let out = self.split_event(end);
                return SseStep::Emit(out);
            },
            None => {},
        }
        match self.buffer.force_split_oversized() {
            Ok(Some(end)) => {
                let out = self.split_event(end);
                SseStep::Emit(out)
            },
            Ok(None) => SseStep::Wait,
            Err(msg) => self.fail_stream("502", msg.as_str()),
        }
    }
}

} // verus!

verus! {

impl SseStream {
    /// The checks made before anything else on each poll: an ended stream
    /// stays ended; past its total duration, or idle past its deadline, it
    /// times out. `None` when none applies.
    pub fn poll_start(&mut self, duration_exceeded: bool, idle_fired: bool) -> (r: Option<SseStep>)
        requires
            old(self).wf(),
        ensures
            final(self).wf(),
            old(self).done ==> (r matches Some(SseStep::Closed) && *final(self) == *old(self)),
            !old(self).done && (duration_exceeded || idle_fired) ==> {
                &&& r matches Some(SseStep::End(rest))
                &&& final(self).done
                &&& final(self).status@ == "504"@
                &&& final(self).error_message matches Some(m)
                &&& m@ == (if duration_exceeded {
                    "SSE stream exceeded max duration"@
                } else {
                    "SSE stream idle timeout"@
                })
                &&& final(self).pending() == Seq::<u8>::empty()
                &&& match rest {
                    Some(t) => old(self).pending().len() > 0
                        && t@ == transformed_body(old(self).kind, old(self).pending(), old(self).model_name@),
                    None => old(self).pending().len() == 0,
                }
            },
            !old(self).done && !duration_exceeded && !idle_fired ==> r is None && *final(self) == *old(self),
    {
        if self.done {
            return Some(SseStep::Closed);
        }
        if duration_exceeded {
            return Some(self.timeout_stream("SSE stream exceeded max duration"));
        }
        if idle_fired {
            return Some(self.timeout_stream("SSE stream idle timeout"));
        }
        None
    }

    /// Take in a chunk from upstream, unless it would take the response past
    /// its size limit, which fails the stream (status 502).
    pub fn receive(&mut self, chunk: &[u8]) -> (accepted: bool)
        requires
            old(self).wf(),
        ensures
            final(self).wf(),
            accepted == (old(self).total_bytes + chunk@.len() <= old(self).max_bytes),
            accepted ==> {
                &&& final(self).pending() == old(self).pending() + chunk@
                &&& final(self).total_bytes == old(self).total_bytes + chunk@.len()
                &&& final(self).done == old(self).done
                &&& final(self).status == old(self).status
                &&& final(self).error_message == old(self).error_message
            },
            !accepted ==> {
                &&& final(self).done
                &&& final(self).status@ == "502"@
                &&& final(self).error_message matches Some(m)
                &&& m@ == "SSE stream exceeded max response size"@
            },
            final(self).user_tokens == old(self).user_tokens,
            final(self).response_body_size == old(self).response_body_size,
            final(self).kind == old(self).kind,
            final(self).model_name == old(self).model_name,
            final(self).max_bytes == old(self).max_bytes,
    {
        if chunk.len() > self.max_bytes || self.total_bytes > self.max_bytes - chunk.len() {
            self.total_bytes = self.total_bytes.saturating_add(chunk.len());
            let _ = self.fail_stream("502", "SSE stream exceeded max response size");
            return false;
        }
        self.total_bytes = self.total_bytes + chunk.len();
        self.buffer.push(chunk);
        true
    }

    /// Upstream failed mid-stream with `message`.
    pub fn on_error(&mut self, message: String)
        ensures
            final(self).done,
            final(self).error_message == Some(message),
            final(self).status == old(self).status,
            final(self).pending() == old(self).pending(),
            final(self).wf() == old(self).wf(),
            final(self).user_tokens == old(self).user_tokens,
            final(self).response_body_size == old(self).response_body_size,
            final(self).kind == old(self).kind,
            final(self).model_name == old(self).model_name,
            final(self).total_bytes == old(self).total_bytes,
            final(self).max_bytes == old(self).max_bytes,
    {
        self.error_message = Some(message);
        self.done = true;
    }

    /// The client went away: a stream that had not ended is logged as 499.
    /// Returns whether the log event still has to be written.
    pub fn abandon(&mut self) -> (r: bool)
        ensures
            r == !old(self).done,
            r ==> final(self).status@ == "499"@,
            !r ==> final(self).status == old(self).status,
            final(self).done == old(self).done,
            final(self).error_message == old(self).error_message,
            final(self).user_tokens == old(self).user_tokens,
            final(self).response_body_size == old(self).response_body_size,
            final(self).pending() == old(self).pending(),
            final(self).wf() == old(self).wf(),
            final(self).kind == old(self).kind,
            final(self).model_name == old(self).model_name,
            final(self).total_bytes == old(self).total_bytes,
            final(self).max_bytes == old(self).max_bytes,
    {
        if self.done {
            return false;
        }
        self.status = "499".to_string();
        true
    }
}

} // verus!
