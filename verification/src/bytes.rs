//! Splitting a byte string on a separator, with the facts the codec needs:
//! a separator-free string is a single field, and prepending a field plus a
//! separator prepends exactly one field to the split.

use vstd::prelude::*;

verus! {

/// True when no byte of `s` equals `sep`.
pub open spec fn sep_free(s: Seq<u8>, sep: u8) -> bool {
    forall|i: int| 0 <= i < s.len() ==> s[i] != sep
}

/// The fields of `s` delimited by `sep`; always at least one field, and
/// empty fields are kept, as splitting on a text delimiter does.
pub open spec fn spec_split(s: Seq<u8>, sep: u8) -> Seq<Seq<u8>>
    decreases s.len(),
{
    if s.len() == 0 {
        seq![Seq::<u8>::empty()]
    } else if s[0] == sep {
        seq![Seq::<u8>::empty()] + spec_split(s.skip(1), sep)
    } else {
        let rest = spec_split(s.skip(1), sep);
        seq![seq![s[0]] + rest[0]] + rest.skip(1)
    }
}

pub proof fn lemma_split_len(s: Seq<u8>, sep: u8)
    ensures
        spec_split(s, sep).len() >= 1,
    decreases s.len(),
{
    if s.len() > 0 {
        lemma_split_len(s.skip(1), sep);
    }
}

/// A separator-free string splits into itself alone.
pub proof fn lemma_split_sep_free(s: Seq<u8>, sep: u8)
    requires
        sep_free(s, sep),
    ensures
        spec_split(s, sep) == seq![s],
    decreases s.len(),
{
    if s.len() == 0 {
        assert(Seq::<u8>::empty() =~= s);
    } else {
        lemma_split_sep_free(s.skip(1), sep);
        let rest = spec_split(s.skip(1), sep);
        assert(rest[0] == s.skip(1));
        assert(seq![s[0]] + s.skip(1) =~= s);
        assert(rest.skip(1) =~= Seq::<Seq<u8>>::empty());
        assert(seq![seq![s[0]] + rest[0]] + rest.skip(1) =~= seq![s]);
    }
}

/// Separator-freedom carries over concatenation.
pub proof fn lemma_sep_free_concat(a: Seq<u8>, b: Seq<u8>, sep: u8)
    requires
        sep_free(a, sep),
        sep_free(b, sep),
    ensures
        sep_free(a + b, sep),
{
    assert forall|i: int| 0 <= i < (a + b).len() implies (a + b)[i] != sep by {
        if i < a.len() {
            assert((a + b)[i] == a[i]);
        } else {
            assert((a + b)[i] == b[i - a.len()]);
        }
    }
}

/// Prepending a separator-free field and a separator prepends one field.
pub proof fn lemma_split_concat(a: Seq<u8>, b: Seq<u8>, sep: u8)
    requires
        sep_free(a, sep),
    ensures
        spec_split(a + seq![sep] + b, sep) == seq![a] + spec_split(b, sep),
    decreases a.len(),
{
    let s = a + seq![sep] + b;
    if a.len() == 0 {
        assert(a =~= Seq::<u8>::empty());
        assert(s[0] == sep);
        assert(s.skip(1) =~= b);
        assert(seq![Seq::<u8>::empty()] + spec_split(b, sep) =~= seq![a] + spec_split(b, sep));
    } else {
        assert(s[0] == a[0]);
        assert(s.skip(1) =~= a.skip(1) + seq![sep] + b);
        lemma_split_concat(a.skip(1), b, sep);
        let rest = spec_split(s.skip(1), sep);
        assert(rest == seq![a.skip(1)] + spec_split(b, sep));
        assert(rest[0] == a.skip(1));
        assert(seq![s[0]] + rest[0] =~= a);
        assert(rest.skip(1) =~= spec_split(b, sep));
        assert(seq![seq![s[0]] + rest[0]] + rest.skip(1) =~= seq![a] + spec_split(b, sep));
    }
}

/// Two separator-free fields joined by one separator split back apart.
pub proof fn lemma_split_two(a: Seq<u8>, b: Seq<u8>, sep: u8)
    requires
        sep_free(a, sep),
        sep_free(b, sep),
    ensures
        spec_split(a + seq![sep] + b, sep) == seq![a, b],
{
    lemma_split_concat(a, b, sep);
    lemma_split_sep_free(b, sep);
    assert(seq![a] + seq![b] =~= seq![a, b]);
}

/// Three separator-free fields joined by two separators split back apart.
pub proof fn lemma_split_three(a: Seq<u8>, b: Seq<u8>, c: Seq<u8>, sep: u8)
    requires
        sep_free(a, sep),
        sep_free(b, sep),
        sep_free(c, sep),
    ensures
        spec_split(a + seq![sep] + b + seq![sep] + c, sep) == seq![a, b, c],
{
    assert(a + seq![sep] + b + seq![sep] + c =~= a + seq![sep] + (b + seq![sep] + c));
    lemma_split_concat(a, b + seq![sep] + c, sep);
    lemma_split_two(b, c, sep);
    assert(seq![a] + seq![b, c] =~= seq![a, b, c]);
}

/// One completed field under construction, glued onto the split of what
/// remains; the shape the splitting loop maintains.
spec fn glue(cur: Seq<u8>, rest: Seq<Seq<u8>>) -> Seq<Seq<u8>> {
    seq![cur + rest[0]] + rest.skip(1)
}

/// Splits `s` on `sep` into owned fields, exactly as `spec_split` says.
pub fn split_bytes(s: &[u8], sep: u8) -> (parts: Vec<Vec<u8>>)
    ensures
        parts@.len() == spec_split(s@, sep).len(),
        forall|i: int| 0 <= i < parts@.len() ==> parts@[i]@ == spec_split(s@, sep)[i],
{
    let ghost whole = spec_split(s@, sep);
    let mut done: Vec<Vec<u8>> = Vec::new();
    let mut cur: Vec<u8> = Vec::new();
    let mut i: usize = 0;
    proof {
        lemma_split_len(s@, sep);
        assert(s@.skip(0) =~= s@);
        assert(glue(Seq::<u8>::empty(), whole) =~= whole);
    }
    while i < s.len()
        invariant
            0 <= i <= s@.len(),
            whole == spec_split(s@, sep),
            whole =~= done@.map_values(|v: Vec<u8>| v@) + glue(
                cur@,
                spec_split(s@.skip(i as int), sep),
            ),
        decreases s@.len() - i,
    {
        let ghost tail = s@.skip(i as int);
        let ghost tail1 = s@.skip(i as int + 1);
        proof {
            assert(tail[0] == s@[i as int]);
            assert(tail.skip(1) =~= tail1);
            lemma_split_len(tail1, sep);
        }
        let b = s[i];
        if b == sep {
            let ghost prev_done = done@;
            let ghost prev_cur = cur@;
            proof {
                assert(spec_split(tail, sep) == seq![Seq::<u8>::empty()] + spec_split(tail1, sep));
                assert(glue(prev_cur, spec_split(tail, sep)) =~= seq![prev_cur] + spec_split(
                    tail1,
                    sep,
                ));
            }
            done.push(cur);
            cur = Vec::new();
            proof {
                assert(done@.map_values(|v: Vec<u8>| v@) =~= prev_done.map_values(|v: Vec<u8>| v@)
                    + seq![prev_cur]);
                assert(glue(cur@, spec_split(tail1, sep)) =~= spec_split(tail1, sep));
                assert(whole =~= done@.map_values(|v: Vec<u8>| v@) + glue(
                    cur@,
                    spec_split(tail1, sep),
                ));
            }
        } else {
            let ghost old_cur = cur@;
            cur.push(b);
            proof {
                let rest1 = spec_split(tail1, sep);
                assert(spec_split(tail, sep) == seq![seq![tail[0]] + rest1[0]] + rest1.skip(1));
                assert(cur@ + rest1[0] =~= old_cur + (seq![tail[0]] + rest1[0]));
                assert(glue(old_cur, spec_split(tail, sep)) =~= glue(cur@, rest1));
                assert(whole =~= done@.map_values(|v: Vec<u8>| v@) + glue(cur@, rest1));
            }
        }
        i = i + 1;
    }
    let ghost prev_done = done@;
    let ghost prev_cur = cur@;
    proof {
        assert(s@.skip(s@.len() as int) =~= Seq::<u8>::empty());
        assert(glue(prev_cur, spec_split(Seq::<u8>::empty(), sep)) =~= seq![prev_cur]);
    }
    done.push(cur);
    proof {
        assert(done@.map_values(|v: Vec<u8>| v@) =~= prev_done.map_values(|v: Vec<u8>| v@)
            + seq![prev_cur]);
        assert(whole =~= done@.map_values(|v: Vec<u8>| v@));
    }
    done
}

} // verus!
