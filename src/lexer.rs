//! Splitting assembly source into lines, and lines into tokens.
use vstd::prelude::*;

verus! {

/// The views of a sequence of byte vectors.
pub open spec fn views_of(v: Seq<Vec<u8>>) -> Seq<Seq<u8>> {
    v.map_values(|x: Vec<u8>| x@)
}

/// Bytes that separate tokens: space, tab and carriage return.
pub open spec fn is_space(c: u8) -> bool {
    c == 0x20 || c == 0x09 || c == 0x0D
}

/// The lines of `s`, split at each newline; there is always at least one.
pub open spec fn lines_of(s: Seq<u8>) -> Seq<Seq<u8>>
    decreases s.len(),
{
    if s.len() == 0 {
        seq![Seq::empty()]
    } else {
        let p = lines_of(s.drop_last());
        if s.last() == 0x0A {
            p.push(Seq::empty())
        } else {
            p.update(p.len() - 1, p.last().push(s.last()))
        }
    }
}

/// The maximal runs of non-space bytes of `s`, in order.
pub open spec fn tokens_of(s: Seq<u8>) -> Seq<Seq<u8>>
    decreases s.len(),
{
    if s.len() == 0 {
        Seq::empty()
    } else {
        let t = tokens_of(s.drop_last());
        let c = s.last();
        if is_space(c) {
            t
        } else if s.len() >= 2 && !is_space(s[s.len() - 2]) {
            t.update(t.len() - 1, t.last().push(c))
        } else {
            t.push(seq![c])
        }
    }
}

proof fn lemma_tokens_nonempty(s: Seq<u8>)
    requires
        s.len() > 0,
        !is_space(s.last()),
    ensures
        tokens_of(s).len() > 0,
    decreases s.len(),
{
    if s.len() >= 2 && !is_space(s[s.len() - 2]) {
        lemma_tokens_nonempty(s.drop_last());
    }
}

/// Text without a newline is one line.
pub proof fn lemma_lines_single(s: Seq<u8>)
    requires
        forall|i: int| 0 <= i < s.len() ==> s[i] != 0x0A,
    ensures
        lines_of(s) == seq![s],
    decreases s.len(),
{
    if s.len() > 0 {
        lemma_lines_single(s.drop_last());
        assert(s[s.len() - 1] != 0x0A);
        assert(s.drop_last().push(s.last()) =~= s);
        assert(lines_of(s) =~= seq![s]);
    } else {
        assert(s =~= Seq::<u8>::empty());
    }
}

/// A newline followed by text without a newline adds that text as a line.
pub proof fn lemma_lines_append(x: Seq<u8>, y: Seq<u8>)
    requires
        forall|i: int| 0 <= i < y.len() ==> y[i] != 0x0A,
    ensures
        lines_of(x + seq![0x0Au8] + y) == lines_of(x).push(y),
    decreases y.len(),
{
    let s = x + seq![0x0Au8] + y;
    if y.len() == 0 {
        assert(s.drop_last() =~= x);
        assert(s.last() == 0x0A);
        assert(y =~= Seq::<u8>::empty());
        assert(lines_of(s) =~= lines_of(x).push(y));
    } else {
        lemma_lines_append(x, y.drop_last());
        assert(s.drop_last() =~= x + seq![0x0Au8] + y.drop_last());
        assert(y[y.len() - 1] != 0x0A);
        assert(s.last() == y.last());
        assert(y.drop_last().push(y.last()) =~= y);
        assert(lines_of(s) =~= lines_of(x).push(y));
    }
}

/// A non-empty run of non-space bytes is a single token.
pub proof fn lemma_tokens_single(s: Seq<u8>)
    requires
        s.len() > 0,
        forall|i: int| 0 <= i < s.len() ==> !is_space(s[i]),
    ensures
        tokens_of(s) == seq![s],
    decreases s.len(),
{
    if s.len() == 1 {
        assert(s.drop_last() =~= Seq::<u8>::empty());
        assert(tokens_of(s.drop_last()) =~= Seq::<Seq<u8>>::empty());
        assert(!is_space(s[0]));
        assert(seq![s.last()] =~= s);
        assert(tokens_of(s) =~= seq![s]);
    } else {
        lemma_tokens_single(s.drop_last());
        assert(!is_space(s[s.len() - 1]) && !is_space(s[s.len() - 2]));
        assert(s.drop_last().push(s.last()) =~= s);
        assert(tokens_of(s) =~= seq![s]);
    }
}

/// A space followed by a non-empty run of non-space bytes adds that run as
/// a token.
pub proof fn lemma_tokens_append(x: Seq<u8>, y: Seq<u8>)
    requires
        y.len() > 0,
        forall|i: int| 0 <= i < y.len() ==> !is_space(y[i]),
    ensures
        tokens_of(x + seq![0x20u8] + y) == tokens_of(x).push(y),
    decreases y.len(),
{
    let s = x + seq![0x20u8] + y;
    if y.len() == 1 {
        assert(s.drop_last() =~= x + seq![0x20u8]);
        assert((x + seq![0x20u8]).drop_last() =~= x);
        assert(tokens_of(x + seq![0x20u8]) == tokens_of(x));
        assert(!is_space(y[0]));
        assert(s[s.len() - 2] == 0x20);
        assert(seq![y.last()] =~= y);
        assert(tokens_of(s) =~= tokens_of(x).push(y));
    } else {
        lemma_tokens_append(x, y.drop_last());
        assert(s.drop_last() =~= x + seq![0x20u8] + y.drop_last());
        assert(!is_space(y[y.len() - 1]) && !is_space(y[y.len() - 2]));
        assert(s[s.len() - 2] == y[y.len() - 2]);
        assert(y.drop_last().push(y.last()) =~= y);
        assert(tokens_of(s) =~= tokens_of(x).push(y));
    }
}

/// Whether two byte strings are equal.
pub fn bytes_eq(a: &[u8], b: &[u8]) -> (r: bool)
    ensures
        r == (a@ == b@),
{
    if a.len() != b.len() {
        return false;
    }
    let mut i: usize = 0;
    while i < a.len()
        invariant
            a@.len() == b@.len(),
            i <= a@.len(),
            forall|j: int| 0 <= j < i ==> a@[j] == b@[j],
        decreases a@.len() - i,
    {
        if a[i] != b[i] {
            return false;
        }
        i = i + 1;
    }
    proof {
        assert(a@ =~= b@);
    }
    true
}

/// Splits source text into lines at each newline byte.
pub fn split_lines(s: &[u8]) -> (r: Vec<Vec<u8>>)
    ensures
        views_of(r@) == lines_of(s@),
{
    let mut done: Vec<Vec<u8>> = Vec::new();
    let mut cur: Vec<u8> = Vec::new();
    let mut i: usize = 0;
    while i < s.len()
        invariant
            i <= s@.len(),
            lines_of(s@.take(i as int)) == views_of(done@).push(cur@),
        decreases s@.len() - i,
    {
        let c = s[i];
        proof {
            assert(s@.take(i + 1).drop_last() =~= s@.take(i as int));
        }
        if c == 0x0A {
            let ghost prev = views_of(done@);
            let ghost line = cur@;
            done.push(cur);
            cur = Vec::new();
            proof {
                assert(views_of(done@) =~= prev.push(line));
                assert(views_of(done@).push(cur@) =~= lines_of(s@.take(i + 1)));
            }
        } else {
            cur.push(c);
            proof {
                assert(views_of(done@).push(cur@) =~= lines_of(s@.take(i + 1)));
            }
        }
        i = i + 1;
    }
    proof {
        assert(s@.take(i as int) =~= s@);
    }
    done.push(cur);
    proof {
        assert(views_of(done@) =~= lines_of(s@));
    }
    done
}

/// Splits a line into its tokens: the maximal runs of non-space bytes.
pub fn tokenize(line: &[u8]) -> (r: Vec<Vec<u8>>)
    ensures
        views_of(r@) == tokens_of(line@),
{
    let mut toks: Vec<Vec<u8>> = Vec::new();
    let mut i: usize = 0;
    while i < line.len()
        invariant
            i <= line@.len(),
            views_of(toks@) == tokens_of(line@.take(i as int)),
        decreases line@.len() - i,
    {
        let c = line[i];
        let ghost prefix = line@.take(i + 1);
        proof {
            assert(prefix.drop_last() =~= line@.take(i as int));
        }
        if c == 0x20 || c == 0x09 || c == 0x0D {
        } else if i >= 1 && !(line[i - 1] == 0x20 || line[i - 1] == 0x09 || line[i - 1] == 0x0D) {
            proof {
                lemma_tokens_nonempty(line@.take(i as int));
            }
            let ghost prev = views_of(toks@);
            let mut last = toks.pop().unwrap();
            last.push(c);
            toks.push(last);
            proof {
                assert(views_of(toks@) =~= prev.update(prev.len() - 1, prev.last().push(c)));
            }
        } else {
            let ghost prev = views_of(toks@);
            let mut tok: Vec<u8> = Vec::new();
            tok.push(c);
            toks.push(tok);
            proof {
                assert(views_of(toks@) =~= prev.push(seq![c]));
            }
        }
        i = i + 1;
    }
    proof {
        assert(line@.take(i as int) =~= line@);
    }
    toks
}

} // verus!
