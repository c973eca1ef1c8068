//! Splitting text into lines, fields and parts.
use vstd::prelude::*;

verus! {

/// ASCII white space: space, tab, line feed, vertical tab, form feed,
/// carriage return.
pub open spec fn is_space(c: u8) -> bool {
    c == 32 || (9 <= c && c <= 13)
}

/// The pieces of `s` between occurrences of `sep`; `n` separators give
/// `n + 1` pieces, some of them possibly empty.
pub open spec fn split_on(s: Seq<u8>, sep: u8) -> Seq<Seq<u8>>
    decreases s.len(),
{
    if s.len() == 0 {
        seq![Seq::empty()]
    } else {
        let p = split_on(s.drop_last(), sep);
        if s.last() == sep {
            p.push(Seq::empty())
        } else {
            p.update(p.len() - 1, p.last().push(s.last()))
        }
    }
}

/// The maximal runs of bytes of `s` that are not white space, in order.
pub open spec fn fields_of(s: Seq<u8>) -> Seq<Seq<u8>>
    decreases s.len(),
{
    if s.len() == 0 {
        Seq::empty()
    } else {
        let p = fields_of(s.drop_last());
        let c = s.last();
        if is_space(c) {
            p
        } else if s.len() >= 2 && !is_space(s[s.len() - 2]) && p.len() > 0 {
            p.update(p.len() - 1, p.last().push(c))
        } else {
            p.push(seq![c])
        }
    }
}

/// The contents of each byte vector.
pub open spec fn views(v: Seq<Vec<u8>>) -> Seq<Seq<u8>> {
    Seq::new(v.len(), |i: int| v[i]@)
}

pub proof fn lemma_split_on_nonempty(s: Seq<u8>, sep: u8)
    ensures
        split_on(s, sep).len() >= 1,
    decreases s.len(),
{
    if s.len() > 0 {
        lemma_split_on_nonempty(s.drop_last(), sep);
    }
}

/// Splits `s` at each occurrence of `sep`.
pub fn split_bytes(s: &[u8], sep: u8) -> (r: Vec<Vec<u8>>)
    ensures
        views(r@) == split_on(s@, sep),
{
    let mut done: Vec<Vec<u8>> = Vec::new();
    let mut cur: Vec<u8> = Vec::new();
    let mut i: usize = 0;
    proof {
        assert(s@.take(0) =~= Seq::<u8>::empty());
        assert(views(done@).push(cur@) =~= seq![Seq::<u8>::empty()]);
    }
    while i < s.len()
        invariant
            i <= s@.len(),
            views(done@).push(cur@) == split_on(s@.take(i as int), sep),
        decreases s@.len() - i,
    {
        proof {
            assert(s@.take(i + 1).drop_last() =~= s@.take(i as int));
            assert(s@.take(i + 1).last() == s@[i as int]);
        }
        let ghost before = views(done@);
        let ghost cur_before = cur@;
        if s[i] == sep {
            done.push(cur);
            cur = Vec::new();
            proof {
                assert(views(done@) =~= before.push(cur_before));
            }
        } else {
            cur.push(s[i]);
        }
        proof {
            assert(views(done@).push(cur@) =~= split_on(s@.take(i + 1), sep));
        }
        i = i + 1;
    }
    proof {
        assert(s@.take(s@.len() as int) =~= s@);
    }
    let ghost before = views(done@);
    done.push(cur);
    proof {
        assert(views(done@) =~= before.push(cur@));
    }
    done
}



/// Splits `s` into its fields: the runs of bytes that are not white space.
pub fn split_fields(s: &[u8]) -> (r: Vec<Vec<u8>>)
    ensures
        views(r@) == fields_of(s@),
{
    let mut done: Vec<Vec<u8>> = Vec::new();
    let mut cur: Vec<u8> = Vec::new();
    let mut i: usize = 0;
    proof {
        assert(s@.take(0) =~= Seq::<u8>::empty());
        assert(views(done@) =~= Seq::<Seq<u8>>::empty());
    }
    while i < s.len()
        invariant
            i <= s@.len(),
            i > 0 && !is_space(s@[i - 1]) ==> cur@.len() > 0 && views(done@).push(cur@)
                == fields_of(s@.take(i as int)),
            !(i > 0 && !is_space(s@[i - 1])) ==> cur@.len() == 0 && views(done@) == fields_of(
                s@.take(i as int),
            ),
        decreases s@.len() - i,
    {
        proof {
            assert(s@.take(i + 1).drop_last() =~= s@.take(i as int));
            assert(s@.take(i + 1).last() == s@[i as int]);
            if i > 0 {
                assert(s@.take(i + 1)[i - 1] == s@[i - 1]);
            }
        }
        let ghost before = views(done@);
        let ghost cur_before = cur@;
        let c = s[i];
        if c == 32 || (9 <= c && c <= 13) {
            if cur.len() > 0 {
                done.push(cur);
                cur = Vec::new();
                proof {
                    assert(views(done@) =~= before.push(cur_before));
                }
            }
        } else {
            cur.push(c);
            proof {
                if i > 0 && !is_space(s@[i - 1]) {
                    assert(before.push(cur_before).update(before.len() as int, cur_before.push(c))
                        =~= before.push(cur@));
                } else {
                    assert(cur@ =~= seq![c]);
                }
            }
        }
        i = i + 1;
    }
    proof {
        assert(s@.take(s@.len() as int) =~= s@);
    }
    if cur.len() > 0 {
        let ghost before = views(done@);
        let ghost cur_before = cur@;
        done.push(cur);
        proof {
            assert(views(done@) =~= before.push(cur_before));
        }
    }
    done
}

} // verus!
