//! Splitting byte strings on delimiter bytes.
//!
//! The wire format nests three delimiters: `$` between header and frame
//! stream, `|` between frame tokens, `/` between header fields, and `,`
//! between geometry components.  Everything here is exact: `spec_split` is
//! the mathematical splitting of a byte sequence, and the executable
//! splitters are proved to produce it.

use vstd::prelude::*;

verus! {

/// Splitting on a delimiter: one field per delimiter-free run, with empty
/// fields between adjacent delimiters and at the ends.  Splitting anything,
/// even an empty sequence, yields at least one field.
pub open spec fn spec_split(s: Seq<u8>, d: u8) -> Seq<Seq<u8>>
    decreases s.len(),
{
    if s.len() == 0 {
        seq![Seq::<u8>::empty()]
    } else if s[0] == d {
        seq![Seq::<u8>::empty()] + spec_split(s.subrange(1, s.len() as int), d)
    } else {
        let r = spec_split(s.subrange(1, s.len() as int), d);
        seq![seq![s[0]] + r[0]] + r.subrange(1, r.len() as int)
    }
}

pub proof fn lemma_split_nonempty(s: Seq<u8>, d: u8)
    ensures
        spec_split(s, d).len() >= 1,
    decreases s.len(),
{
    if s.len() > 0 {
        lemma_split_nonempty(s.subrange(1, s.len() as int), d);
    }
}

/// Appending a delimiter ends the current field and opens an empty one.
pub proof fn lemma_split_push_delim(s: Seq<u8>, d: u8)
    ensures
        spec_split(s.push(d), d) == spec_split(s, d).push(Seq::<u8>::empty()),
    decreases s.len(),
{
    reveal_with_fuel(spec_split, 3);
    lemma_split_nonempty(s, d);
    if s.len() == 0 {
        assert(s.push(d)[0] == d);
        assert(s.push(d).subrange(1, s.push(d).len() as int) =~= Seq::<u8>::empty());
        assert(spec_split(s.push(d), d)
            =~~= spec_split(s, d).push(Seq::<u8>::empty()));
    } else {
        let t = s.subrange(1, s.len() as int);
        lemma_split_push_delim(t, d);
        lemma_split_nonempty(t, d);
        assert(s.push(d).subrange(1, s.push(d).len() as int) =~= t.push(d));
        if s[0] == d {
            assert(spec_split(s.push(d), d)
                =~~= spec_split(s, d).push(Seq::<u8>::empty()));
        } else {
            let r = spec_split(t, d);
            let rp = spec_split(t.push(d), d);
            assert(rp == r.push(Seq::<u8>::empty()));
            assert(rp[0] == r[0]);
            assert(rp.subrange(1, rp.len() as int)
                =~~= r.subrange(1, r.len() as int).push(Seq::<u8>::empty()));
            assert(spec_split(s.push(d), d)
                =~~= spec_split(s, d).push(Seq::<u8>::empty()));
        }
    }
}

/// Appending an ordinary byte extends the last field.
pub proof fn lemma_split_push_byte(s: Seq<u8>, d: u8, c: u8)
    requires
        c != d,
    ensures
        spec_split(s.push(c), d) == spec_split(s, d).update(
            spec_split(s, d).len() - 1,
            spec_split(s, d).last().push(c),
        ),
    decreases s.len(),
{
    reveal_with_fuel(spec_split, 3);
    lemma_split_nonempty(s, d);
    if s.len() == 0 {
        assert(s.push(c)[0] == c);
        assert(s.push(c).subrange(1, s.push(c).len() as int) =~= Seq::<u8>::empty());
        assert(spec_split(s.push(c), d) =~~= spec_split(s, d).update(
            spec_split(s, d).len() - 1,
            spec_split(s, d).last().push(c),
        ));
    } else {
        let t = s.subrange(1, s.len() as int);
        lemma_split_push_byte(t, d, c);
        lemma_split_nonempty(t, d);
        assert(s.push(c).subrange(1, s.push(c).len() as int) =~= t.push(c));
        let r = spec_split(t, d);
        let rp = spec_split(t.push(c), d);
        assert(rp == r.update(r.len() - 1, r.last().push(c)));
        if s[0] == d {
            assert(spec_split(s.push(c), d) =~~= spec_split(s, d).update(
                spec_split(s, d).len() - 1,
                spec_split(s, d).last().push(c),
            ));
        } else {
            if r.len() == 1 {
                assert(rp[0] == r[0].push(c));
                assert(seq![s[0]] + rp[0] =~= (seq![s[0]] + r[0]).push(c));
                assert(rp.subrange(1, rp.len() as int) =~~= r.subrange(1, r.len() as int));
                assert(spec_split(s.push(c), d) =~= spec_split(s, d).update(
                    spec_split(s, d).len() - 1,
                    spec_split(s, d).last().push(c),
                ));
            } else {
                assert(rp[0] == r[0]);
                assert(rp.subrange(1, rp.len() as int)
                    =~~= r.subrange(1, r.len() as int).update(
                        r.len() - 2,
                        r.last().push(c),
                    ));
                assert(spec_split(s.push(c), d) =~= spec_split(s, d).update(
                    spec_split(s, d).len() - 1,
                    spec_split(s, d).last().push(c),
                ));
            }
        }
    }
}

/// The sequence of fields a vector of byte vectors holds.
pub open spec fn views_of(v: Seq<Vec<u8>>) -> Seq<Seq<u8>> {
    v.map_values(|f: Vec<u8>| f@)
}

/// Splits a byte string on a delimiter byte, producing exactly the fields of
/// `spec_split`.
pub fn split_bytes(s: &[u8], d: u8) -> (r: Vec<Vec<u8>>)
    ensures
        views_of(r@) == spec_split(s@, d),
{
    let mut out: Vec<Vec<u8>> = Vec::new();
    let mut cur: Vec<u8> = Vec::new();
    let mut i: usize = 0;
    proof {
        assert(s@.take(0) =~= Seq::<u8>::empty());
        assert(views_of(out@).push(cur@) =~~= spec_split(s@.take(0), d));
    }
    while i < s.len()
        invariant
            i <= s@.len(),
            views_of(out@).push(cur@) == spec_split(s@.take(i as int), d),
        decreases s@.len() - i,
    {
        let b = s[i];
        proof {
            assert(s@.take(i + 1) =~= s@.take(i as int).push(s@[i as int]));
        }
        if b == d {
            proof {
                lemma_split_push_delim(s@.take(i as int), d);
            }
            out.push(cur);
            cur = Vec::new();
            proof {
                assert(views_of(out@).push(cur@)
                    =~~= spec_split(s@.take(i + 1), d));
            }
        } else {
            proof {
                lemma_split_push_byte(s@.take(i as int), d, b);
                lemma_split_nonempty(s@.take(i as int), d);
            }
            cur.push(b);
            proof {
                assert(views_of(out@).push(cur@)
                    =~~= spec_split(s@.take(i + 1), d));
            }
        }
        i = i + 1;
    }
    proof {
        assert(s@.take(i as int) =~= s@);
    }
    out.push(cur);
    proof {
        assert(views_of(out@) =~~= spec_split(s@, d));
    }
    out
}

/// Finds the first occurrence of `d` at or after `from`.
pub fn find_byte(s: &[u8], from: usize, d: u8) -> (r: Option<usize>)
    requires
        from <= s@.len(),
    ensures
        match r {
            Some(i) => from <= i < s@.len() && s@[i as int] == d
                && (forall|j: int| from <= j < i ==> s@[j] != d),
            None => forall|j: int| from <= j < s@.len() ==> s@[j] != d,
        },
{
    let mut i: usize = from;
    while i < s.len()
        invariant
            from <= i <= s@.len(),
            forall|j: int| from <= j < i ==> s@[j] != d,
        decreases s@.len() - i,
    {
        if s[i] == d {
            return Some(i);
        }
        i = i + 1;
    }
    None
}

/// Copies `s[a..b]` into a fresh vector.
pub fn copy_range(s: &[u8], a: usize, b: usize) -> (r: Vec<u8>)
    requires
        a <= b <= s@.len(),
    ensures
        r@ == s@.subrange(a as int, b as int),
{
    let mut out: Vec<u8> = Vec::new();
    let mut i: usize = a;
    proof {
        assert(out@ =~= s@.subrange(a as int, a as int));
    }
    while i < b
        invariant
            a <= i <= b <= s@.len(),
            out@ == s@.subrange(a as int, i as int),
        decreases b - i,
    {
        out.push(s[i]);
        proof {
            assert(out@ =~= s@.subrange(a as int, i + 1));
        }
        i = i + 1;
    }
    out
}

/// Extending by a delimiter-free run extends the last field by that run.
pub proof fn lemma_split_extend_run(s: Seq<u8>, d: u8, f: Seq<u8>)
    requires
        forall|j: int| 0 <= j < f.len() ==> f[j] != d,
    ensures
        spec_split(s + f, d) == spec_split(s, d).update(
            spec_split(s, d).len() - 1,
            spec_split(s, d).last() + f,
        ),
    decreases f.len(),
{
    lemma_split_nonempty(s, d);
    if f.len() == 0 {
        assert(s + f =~= s);
        assert(spec_split(s, d).last() + f =~= spec_split(s, d).last());
        assert(spec_split(s, d).update(
            spec_split(s, d).len() - 1,
            spec_split(s, d).last() + f,
        ) =~~= spec_split(s, d));
    } else {
        let g = f.drop_last();
        let c = f.last();
        assert(forall|j: int| 0 <= j < g.len() ==> g[j] != d);
        lemma_split_extend_run(s, d, g);
        lemma_split_push_byte(s + g, d, c);
        assert(s + f =~= (s + g).push(c));
        let base = spec_split(s, d);
        let mid = spec_split(s + g, d);
        assert(mid == base.update(base.len() - 1, base.last() + g));
        assert(mid.len() == base.len());
        assert(mid.last() == base.last() + g);
        assert(mid.last().push(c) =~= base.last() + f);
        assert(spec_split(s + f, d)
            =~~= base.update(base.len() - 1, base.last() + f));
    }
}

/// A delimiter-free byte string splits into just itself.
pub proof fn lemma_split_delim_free(f: Seq<u8>, d: u8)
    requires
        forall|j: int| 0 <= j < f.len() ==> f[j] != d,
    ensures
        spec_split(f, d) == seq![f],
{
    lemma_split_extend_run(Seq::<u8>::empty(), d, f);
    assert(Seq::<u8>::empty() + f =~= f);
    assert(spec_split(Seq::<u8>::empty(), d) == seq![Seq::<u8>::empty()]);
    assert(Seq::<u8>::empty() + f =~= f);
    assert(spec_split(f, d) =~~= seq![f]);
}

} // verus!
