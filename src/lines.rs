use vstd::prelude::*;

verus! {

/// The byte that ends a line of child output.
pub const NEWLINE: u8 = 10;

/// Splits `b` into the lines completed so far and the bytes of the line
/// still open, reading the bytes in order.
pub open spec fn split(b: Seq<u8>) -> (Seq<Seq<u8>>, Seq<u8>)
    decreases b.len(),
{
    if b.len() == 0 {
        (seq![], seq![])
    } else {
        let (done, open) = split(b.drop_last());
        if b.last() == NEWLINE {
            (done.push(open), seq![])
        } else {
            (done, open.push(b.last()))
        }
    }
}

/// The newline-terminated lines of `b`, without their newline.
pub open spec fn lines_of(b: Seq<u8>) -> Seq<Seq<u8>> {
    split(b).0
}

/// The bytes of `b` after its last newline.
pub open spec fn pending_of(b: Seq<u8>) -> Seq<u8> {
    split(b).1
}

pub open spec fn has_newline(b: Seq<u8>) -> bool {
    exists|i: int| 0 <= i < b.len() && b[i] == NEWLINE
}

/// How many newline bytes `b` holds.
pub open spec fn newline_count(b: Seq<u8>) -> nat
    decreases b.len(),
{
    if b.len() == 0 {
        0
    } else {
        newline_count(b.drop_last()) + if b.last() == NEWLINE { 1nat } else { 0nat }
    }
}

/// Bytes without a newline complete no line and all stay open.
pub proof fn lemma_split_no_newline(b: Seq<u8>)
    requires
        !has_newline(b),
    ensures
        lines_of(b) == Seq::<Seq<u8>>::empty(),
        pending_of(b) == b,
    decreases b.len(),
{
    if b.len() > 0 {
        let p = b.drop_last();
        assert(!has_newline(p)) by {
            if has_newline(p) {
                let i = choose|i: int| 0 <= i < p.len() && p[i] == NEWLINE;
                assert(b[i] == NEWLINE);
            }
        }
        lemma_split_no_newline(p);
        assert(b.last() != NEWLINE) by {
            assert(b[b.len() - 1] == b.last());
        }
        assert(p.push(b.last()) =~= b);
    }
}

/// The open line never holds a newline.
pub proof fn lemma_pending_has_no_newline(b: Seq<u8>)
    ensures
        !has_newline(pending_of(b)),
    decreases b.len(),
{
    if b.len() > 0 {
        lemma_pending_has_no_newline(b.drop_last());
        let p = pending_of(b.drop_last());
        if b.last() != NEWLINE {
            assert forall|i: int| 0 <= i < p.push(b.last()).len() implies p.push(b.last())[i]
                != NEWLINE by {
                if i < p.len() {
                    assert(p.push(b.last())[i] == p[i]);
                }
            }
        }
    }
}

/// Each newline completes exactly one line.
pub proof fn lemma_line_count(b: Seq<u8>)
    ensures
        lines_of(b).len() == newline_count(b),
    decreases b.len(),
{
    if b.len() > 0 {
        lemma_line_count(b.drop_last());
    }
}

/// Splitting does not depend on how the bytes were cut into chunks: the lines
/// of `a + b` are those of `a` followed by those that `b` completes after the
/// line that `a` left open.
pub proof fn lemma_split_append(a: Seq<u8>, b: Seq<u8>)
    ensures
        lines_of(a + b) == lines_of(a) + lines_of(pending_of(a) + b),
        pending_of(a + b) == pending_of(pending_of(a) + b),
    decreases b.len(),
{
    if b.len() == 0 {
        assert(a + b =~= a);
        assert(pending_of(a) + b =~= pending_of(a));
        lemma_pending_has_no_newline(a);
        lemma_split_no_newline(pending_of(a));
        assert(lines_of(a) + Seq::<Seq<u8>>::empty() =~= lines_of(a));
    } else {
        let b0 = b.drop_last();
        let p = pending_of(a);
        lemma_split_append(a, b0);
        assert((a + b).drop_last() =~= a + b0);
        assert((p + b).drop_last() =~= p + b0);
        assert((a + b).last() == b.last());
        assert((p + b).last() == b.last());
        if b.last() == NEWLINE {
            assert(lines_of(a + b) == lines_of(a + b0).push(pending_of(a + b0)));
            assert(lines_of(p + b) == lines_of(p + b0).push(pending_of(p + b0)));
            assert(lines_of(a) + lines_of(p + b0).push(pending_of(p + b0)) =~= (lines_of(a)
                + lines_of(p + b0)).push(pending_of(p + b0)));
        }
    }
}

/// Collects child output bytes into lines. Its view is the open line.
pub struct LineSplitter {
    pending: Vec<u8>,
}

impl View for LineSplitter {
    type V = Seq<u8>;

    closed spec fn view(&self) -> Seq<u8> {
        self.pending@
    }
}

impl LineSplitter {
    /// The open line holds no newline.
    pub open spec fn wf(&self) -> bool {
        !has_newline(self@)
    }

    pub fn new() -> (r: LineSplitter)
        ensures
            r@ == Seq::<u8>::empty(),
            r.wf(),
    {
        LineSplitter { pending: Vec::new() }
    }

    /// Appends `chunk` to the open line and returns, in order, the lines that
    /// this completes.
    pub fn push(&mut self, chunk: &[u8]) -> (lines: Vec<Vec<u8>>)
        requires
            old(self).wf(),
        ensures
            final(self).wf(),
            lines.deep_view() == lines_of(old(self)@ + chunk@),
            final(self)@ == pending_of(old(self)@ + chunk@),
    {
        let ghost start = self@;
        proof {
            lemma_split_no_newline(start);
            assert(start + chunk@.take(0) =~= start);
        }
        let mut lines: Vec<Vec<u8>> = Vec::new();
        let mut i: usize = 0;
        while i < chunk.len()
            invariant
                i <= chunk@.len(),
                lines.deep_view() == lines_of(start + chunk@.take(i as int)),
                self@ == pending_of(start + chunk@.take(i as int)),
            decreases chunk@.len() - i,
        {
            let ghost before = start + chunk@.take(i as int);
            let ghost after = start + chunk@.take(i + 1);
            proof {
                assert(after.drop_last() =~= before);
                assert(after.last() == chunk@[i as int]);
            }
            let byte = chunk[i];
            if byte == NEWLINE {
                let mut line: Vec<u8> = Vec::new();
                std::mem::swap(&mut line, &mut self.pending);
                let ghost done = lines.deep_view();
                proof {
                    assert(line.deep_view() =~= pending_of(before));
                }
                lines.push(line);
                proof {
                    assert(lines.deep_view() =~= done.push(pending_of(before)));
                    assert(self@ =~= Seq::<u8>::empty());
                }
            } else {
                self.pending.push(byte);
            }
            i = i + 1;
        }
        proof {
            assert(chunk@.take(chunk@.len() as int) =~= chunk@);
            lemma_pending_has_no_newline(start + chunk@);
        }
        lines
    }
}

} // verus!
