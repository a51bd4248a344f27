use vstd::prelude::*;

verus! {

/// The bytes that close every frame. Neither 0xFE nor 0xFF occurs in UTF-8
/// text, so no rendered record holds this sequence.
pub const TERM_0: u8 = 254;

pub const TERM_1: u8 = 253;

pub const TERM_2: u8 = 255;

pub open spec fn terminator() -> Seq<u8> {
    seq![TERM_0, TERM_1, TERM_2]
}

/// The terminator starts at position `i` of `s`.
pub open spec fn term_at(s: Seq<u8>, i: int) -> bool {
    &&& 0 <= i
    &&& i + 3 <= s.len()
    &&& s[i] == TERM_0
    &&& s[i + 1] == TERM_1
    &&& s[i + 2] == TERM_2
}

/// `s` holds no terminator.
pub open spec fn term_free(s: Seq<u8>) -> bool {
    forall|i: int| !#[trigger] term_at(s, i)
}

/// The byte stream that carries the records `rs`, each followed by the terminator.
pub open spec fn frames(rs: Seq<Seq<u8>>) -> Seq<u8>
    decreases rs.len(),
{
    if rs.len() == 0 {
        Seq::empty()
    } else {
        frames(rs.drop_last()) + rs.last() + terminator()
    }
}

pub open spec fn records_view(v: Seq<Vec<u8>>) -> Seq<Seq<u8>> {
    v.map_values(|r: Vec<u8>| r@)
}

/// The terminator bytes.
pub fn msg_terminator() -> (r: Vec<u8>)
    ensures
        r@ == terminator(),
{
    let mut r: Vec<u8> = Vec::new();
    r.push(TERM_0);
    r.push(TERM_1);
    r.push(TERM_2);
    assert(r@ =~= terminator());
    r
}

/// The frame that carries one rendered record: its bytes, then the terminator.
pub fn frame(record: &[u8]) -> (r: Vec<u8>)
    ensures
        r@ == record@ + terminator(),
{
    let mut r: Vec<u8> = Vec::new();
    let mut i: usize = 0;
    while i < record.len()
        invariant
            i <= record@.len(),
            r@ == record@.take(i as int),
        decreases record@.len() - i,
    {
        r.push(record[i]);
        assert(r@ =~= record@.take(i + 1));
        i = i + 1;
    }
    r.push(TERM_0);
    r.push(TERM_1);
    r.push(TERM_2);
    assert(r@ =~= record@ + terminator());
    r
}

/// Recovers records from a byte stream of frames that arrives in pieces of
/// any size.
pub struct Reassembler {
    buf: Vec<u8>,
    scan: usize,
}

impl Reassembler {
    /// The bytes received after the last complete frame.
    pub closed spec fn pending(&self) -> Seq<u8> {
        self.buf@
    }

    pub closed spec fn wf(&self) -> bool {
        &&& term_free(self.buf@)
        &&& self.scan <= self.buf@.len()
        &&& (self.scan == 0 || self.scan + 2 <= self.buf@.len())
    }

    pub fn new() -> (r: Reassembler)
        ensures
            r.wf(),
            r.pending() == Seq::<u8>::empty(),
    {
        Reassembler { buf: Vec::new(), scan: 0 }
    }

    /// The number of bytes held back as the start of an unfinished frame.
    pub fn pending_len(&self) -> (r: usize)
        ensures
            r == self.pending().len(),
    {
        self.buf.len()
    }

    /// Takes the next bytes of the stream and hands back the records that they
    /// complete, in order. What is received stays the frames of all records
    /// handed back, followed by the pending bytes, which hold no terminator.
    pub fn push(&mut self, chunk: &[u8]) -> (out: Vec<Vec<u8>>)
        requires
            old(self).wf(),
        ensures
            final(self).wf(),
            term_free(final(self).pending()),
            old(self).pending() + chunk@ == frames(records_view(out@)) + final(self).pending(),
            forall|i: int| 0 <= i < out@.len() ==> term_free(#[trigger] out@[i]@),
    {
        let ghost start = self.buf@ + chunk@;
        let ghost old_buf = self.buf@;
        self.buf.extend_from_slice(chunk);
        assert(self.buf@ =~= start);
        assert forall|i: int| 0 <= i < self.scan implies !term_at(self.buf@, i) by {
            assert(!term_at(old_buf, i));
        }
        let mut out: Vec<Vec<u8>> = Vec::new();
        assert(frames(records_view(out@)) + self.buf@ =~= start);
        while self.buf.len() - self.scan >= 3
            invariant
                self.scan <= self.buf@.len(),
                self.scan == 0 || self.scan + 2 <= self.buf@.len(),
                forall|i: int| 0 <= i < self.scan ==> !term_at(self.buf@, i),
                start == frames(records_view(out@)) + self.buf@,
                forall|i: int| 0 <= i < out@.len() ==> term_free(#[trigger] out@[i]@),
            decreases self.buf@.len() - self.scan, self.buf@.len(),
        {
            let s = self.scan;
            if self.buf[s] == TERM_0 && self.buf[s + 1] == TERM_1 && self.buf[s + 2] == TERM_2 {
                let ghost whole = self.buf@;
                let mut rec = self.buf.split_off(s + 3);
                std::mem::swap(&mut rec, &mut self.buf);
                rec.truncate(s);
                assert(rec@ =~= whole.take(s as int));
                assert(self.buf@ =~= whole.skip(s + 3));
                assert forall|i: int| !term_at(rec@, i) by {
                    if 0 <= i && i + 3 <= rec@.len() {
                        assert(!term_at(whole, i));
                    }
                }
                let ghost prev = out@;
                out.push(rec);
                assert(records_view(out@) =~= records_view(prev).push(rec@));
                assert(records_view(out@).drop_last() =~= records_view(prev));
                assert(whole =~= rec@ + terminator() + self.buf@);
                assert(frames(records_view(out@)) + self.buf@ =~= frames(records_view(prev))
                    + whole);
                self.scan = 0;
            } else {
                assert(!term_at(self.buf@, s as int));
                self.scan = s + 1;
            }
        }
        assert forall|i: int| !term_at(self.buf@, i) by {
            if 0 <= i && i < self.scan {
            }
        }
        out
    }
}

/// The stream `frames(x)` ends with the terminator, after the last record.
proof fn lemma_frames_last(x: Seq<Seq<u8>>)
    requires
        x.len() > 0,
    ensures
        frames(x) == frames(x.drop_last()) + x.last() + terminator(),
        frames(x).len() == frames(x.drop_last()).len() + x.last().len() + 3,
        term_at(frames(x), frames(x).len() - 3),
{
    let s = frames(x);
    let n = s.len();
    assert(s[n - 3] == terminator()[0]);
    assert(s[n - 2] == terminator()[1]);
    assert(s[n - 1] == terminator()[2]);
}

/// In one stream of frames of terminator-free records, the last record of
/// one reading cannot be shorter than that of another.
proof fn lemma_last_not_shorter(x: Seq<Seq<u8>>, y: Seq<Seq<u8>>)
    requires
        x.len() > 0,
        y.len() > 0,
        forall|i: int| 0 <= i < x.len() ==> term_free(#[trigger] x[i]),
        forall|i: int| 0 <= i < y.len() ==> term_free(#[trigger] y[i]),
        frames(x) == frames(y),
    ensures
        x.last().len() >= y.last().len(),
{
    let s = frames(x);
    let n = s.len();
    let a = frames(x.drop_last());
    let b = frames(y.drop_last());
    let o = x.last();
    let r = y.last();
    lemma_frames_last(x);
    lemma_frames_last(y);
    assert(term_free(o));
    assert(term_free(r));
    if o.len() < r.len() {
        let d = r.len() - o.len();
        if x.drop_last().len() == 0 {
            assert(a.len() == 0);
            assert(false);
        }
        lemma_frames_last(x.drop_last());
        let q = a.len() - 3;
        assert(q == n - 6 - o.len());
        assert(term_at(a, q));
        assert(s[q] == TERM_0 && s[q + 1] == TERM_1 && s[q + 2] == TERM_2);
        if d >= 3 {
            let base = n - 3 - r.len();
            assert(r[d - 3] == s[base + d - 3]);
            assert(r[d - 2] == s[base + d - 2]);
            assert(r[d - 1] == s[base + d - 1]);
            assert(term_at(r, d - 3));
            assert(false);
        } else {
            if y.drop_last().len() == 0 {
                assert(b.len() == 0);
                assert(false);
            }
            lemma_frames_last(y.drop_last());
            let p = b.len() - 3;
            assert(p == q - d);
            assert(term_at(b, p));
            assert(s[p] == TERM_0 && s[p + 1] == TERM_1 && s[p + 2] == TERM_2);
            assert(false);
        }
    }
}

/// A stream of frames of terminator-free records has one reading only: when
/// `frames(out)` followed by terminator-free `pending` is `frames(rs)`, then
/// `out` is `rs` and nothing is pending.
pub proof fn lemma_frames_unique(out: Seq<Seq<u8>>, pending: Seq<u8>, rs: Seq<Seq<u8>>)
    requires
        forall|i: int| 0 <= i < out.len() ==> term_free(#[trigger] out[i]),
        forall|i: int| 0 <= i < rs.len() ==> term_free(#[trigger] rs[i]),
        term_free(pending),
        frames(out) + pending == frames(rs),
    ensures
        out == rs,
        pending == Seq::<u8>::empty(),
    decreases rs.len(),
{
    let s = frames(rs);
    let n = s.len();
    let f = frames(out);
    if out.len() > 0 {
        lemma_frames_last(out);
    }
    if rs.len() == 0 {
        assert(pending =~= Seq::<u8>::empty());
        assert(out =~= rs);
    } else {
        lemma_frames_last(rs);
        assert(s[n - 3] == TERM_0 && s[n - 2] == TERM_1 && s[n - 1] == TERM_2);
        let p = pending.len();
        if out.len() == 0 {
            assert(pending =~= s);
            assert(term_at(pending, n - 3));
            assert(false);
        }
        assert(f[f.len() - 3] == TERM_0 && f[f.len() - 2] == TERM_1 && f[f.len() - 1] == TERM_2);
        if p >= 3 {
            assert(pending[p - 3] == s[n - 3]);
            assert(pending[p - 2] == s[n - 2]);
            assert(pending[p - 1] == s[n - 1]);
            assert(term_at(pending, p - 3));
            assert(false);
        } else if p == 1 {
            assert(s[n - 3] == f[f.len() - 2]);
            assert(false);
        } else if p == 2 {
            assert(s[n - 3] == f[f.len() - 1]);
            assert(false);
        }
        assert(pending =~= Seq::<u8>::empty());
        assert(f =~= s);
        lemma_last_not_shorter(out, rs);
        lemma_last_not_shorter(rs, out);
        let o = out.last();
        let r = rs.last();
        let fa = frames(out.drop_last());
        let fb = frames(rs.drop_last());
        assert(o =~= s.subrange(n - 3 - o.len(), n - 3));
        assert(r =~= s.subrange(n - 3 - r.len(), n - 3));
        assert(fa =~= s.take(fa.len() as int));
        assert(fb =~= s.take(fb.len() as int));
        assert(frames(out.drop_last()) + Seq::<u8>::empty() =~= frames(rs.drop_last()));
        lemma_frames_unique(out.drop_last(), Seq::<u8>::empty(), rs.drop_last());
        assert(out =~= out.drop_last().push(o));
        assert(rs =~= rs.drop_last().push(r));
    }
}

/// The bytes of `cs`, one piece after another.
pub open spec fn joined(cs: Seq<Seq<u8>>) -> Seq<u8>
    decreases cs.len(),
{
    if cs.len() == 0 {
        Seq::empty()
    } else {
        joined(cs.drop_last()) + cs.last()
    }
}

/// The records of the batches `bs`, one batch after another.
pub open spec fn all_records(bs: Seq<Seq<Seq<u8>>>) -> Seq<Seq<u8>>
    decreases bs.len(),
{
    if bs.len() == 0 {
        Seq::empty()
    } else {
        all_records(bs.drop_last()) + bs.last()
    }
}

/// Framing is compatible with putting record lists one after another.
pub proof fn lemma_frames_append(a: Seq<Seq<u8>>, b: Seq<Seq<u8>>)
    ensures
        frames(a + b) == frames(a) + frames(b),
    decreases b.len(),
{
    if b.len() == 0 {
        assert(a + b =~= a);
        assert(frames(a) + frames(b) =~= frames(a));
    } else {
        assert((a + b).drop_last() =~= a + b.drop_last());
        lemma_frames_append(a, b.drop_last());
        assert(frames(a + b) =~= frames(a) + frames(b));
    }
}

/// After the first `k` pieces, what was received is the frames of every
/// record handed back so far, followed by what is pending.
proof fn lemma_feed_prefix(
    chunks: Seq<Seq<u8>>,
    outs: Seq<Seq<Seq<u8>>>,
    pendings: Seq<Seq<u8>>,
    k: int,
)
    requires
        0 <= k <= chunks.len(),
        outs.len() == chunks.len(),
        pendings.len() == chunks.len() + 1,
        pendings[0] == Seq::<u8>::empty(),
        forall|j: int|
            0 <= j < chunks.len() ==> pendings[j] + chunks[j] == frames(#[trigger] outs[j])
                + pendings[j + 1],
        forall|j: int, i: int|
            0 <= j < outs.len() && 0 <= i < outs[j].len() ==> term_free(#[trigger] outs[j][i]),
    ensures
        joined(chunks.take(k)) == frames(all_records(outs.take(k))) + pendings[k],
        forall|i: int|
            0 <= i < all_records(outs.take(k)).len() ==> term_free(
                #[trigger] all_records(outs.take(k))[i],
            ),
    decreases k,
{
    if k == 0 {
        assert(joined(chunks.take(0)) =~= Seq::<u8>::empty());
        assert(all_records(outs.take(0)) =~= Seq::<Seq<u8>>::empty());
        assert(frames(all_records(outs.take(0))) + pendings[0] =~= Seq::<u8>::empty());
    } else {
        lemma_feed_prefix(chunks, outs, pendings, k - 1);
        let before = all_records(outs.take(k - 1));
        assert(chunks.take(k).drop_last() =~= chunks.take(k - 1));
        assert(outs.take(k).drop_last() =~= outs.take(k - 1));
        assert(all_records(outs.take(k)) == before + outs[k - 1]);
        lemma_frames_append(before, outs[k - 1]);
        assert(chunks.take(k).last() == chunks[k - 1]);
        assert(joined(chunks.take(k)) == joined(chunks.take(k - 1)) + chunks[k - 1]);
        assert(pendings[k - 1] + chunks[k - 1] == frames(outs[k - 1]) + pendings[k]);
        assert(frames(before) + pendings[k - 1] + chunks[k - 1] =~= frames(before) + (
        pendings[k - 1] + chunks[k - 1]));
        assert(frames(before) + (frames(outs[k - 1]) + pendings[k]) =~= frames(before) + frames(
            outs[k - 1],
        ) + pendings[k]);
        assert(joined(chunks.take(k)) == frames(all_records(outs.take(k))) + pendings[k]);
        assert forall|i: int|
            0 <= i < all_records(outs.take(k)).len() implies term_free(
                #[trigger] all_records(outs.take(k))[i],
            ) by {
            if i >= before.len() {
                assert(all_records(outs.take(k))[i] == outs[k - 1][i - before.len()]);
            }
        }
    }
}

/// Records that hold no terminator, framed one after another, and handed to
/// a reassembler in pieces cut anywhere, come back whole, in order, with
/// nothing left pending. Each step is what `Reassembler::push` ensures:
/// `pendings[j]` is pending before piece `j`, `outs[j]` is what that call
/// hands back.
pub proof fn lemma_round_trip(
    rs: Seq<Seq<u8>>,
    chunks: Seq<Seq<u8>>,
    outs: Seq<Seq<Seq<u8>>>,
    pendings: Seq<Seq<u8>>,
)
    requires
        forall|i: int| 0 <= i < rs.len() ==> term_free(#[trigger] rs[i]),
        joined(chunks) == frames(rs),
        outs.len() == chunks.len(),
        pendings.len() == chunks.len() + 1,
        pendings[0] == Seq::<u8>::empty(),
        forall|j: int|
            0 <= j < chunks.len() ==> pendings[j] + chunks[j] == frames(#[trigger] outs[j])
                + pendings[j + 1],
        forall|j: int, i: int|
            0 <= j < outs.len() && 0 <= i < outs[j].len() ==> term_free(#[trigger] outs[j][i]),
        forall|j: int| 0 <= j < pendings.len() ==> term_free(#[trigger] pendings[j]),
    ensures
        all_records(outs) == rs,
        pendings.last() == Seq::<u8>::empty(),
{
    let n = chunks.len() as int;
    lemma_feed_prefix(chunks, outs, pendings, n);
    assert(chunks.take(n) =~= chunks);
    assert(outs.take(n) =~= outs);
    lemma_frames_unique(all_records(outs), pendings[n], rs);
}

} // verus!
