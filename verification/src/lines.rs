use vstd::prelude::*;

verus! {

/// The byte that ends a line.
pub const NEWLINE: u8 = 10;

/// How many newline bytes `s` holds.
pub open spec fn count_newlines(s: Seq<u8>) -> nat
    decreases s.len(),
{
    if s.len() == 0 {
        0
    } else {
        count_newlines(s.drop_last()) + if s.last() == NEWLINE {
            1nat
        } else {
            0nat
        }
    }
}

/// `s` split at every newline byte: always one segment more than there are
/// newlines, and the newline bytes themselves belong to no segment.
pub open spec fn split_newlines(s: Seq<u8>) -> Seq<Seq<u8>>
    decreases s.len(),
{
    if s.len() == 0 {
        seq![Seq::<u8>::empty()]
    } else if s.last() == NEWLINE {
        split_newlines(s.drop_last()).push(Seq::<u8>::empty())
    } else {
        let t = split_newlines(s.drop_last());
        t.update(t.len() - 1, t.last().push(s.last()))
    }
}

/// The lines of `s`: the split segments, except that a file that is empty or
/// ends in a newline contributes no final empty line.
pub open spec fn spec_lines(s: Seq<u8>) -> Seq<Seq<u8>> {
    if s.len() == 0 || s.last() == NEWLINE {
        split_newlines(s).drop_last()
    } else {
        split_newlines(s)
    }
}

pub proof fn lemma_split_len(s: Seq<u8>)
    ensures
        split_newlines(s).len() == count_newlines(s) + 1,
    decreases s.len(),
{
    if s.len() > 0 {
        lemma_split_len(s.drop_last());
    }
}

/// A file has at least as many lines as newlines, and at most one more:
/// the final segment counts only when the file does not end in a newline.
pub proof fn lemma_lines_len(s: Seq<u8>)
    ensures
        spec_lines(s).len() == count_newlines(s) + if s.len() > 0 && s.last() != NEWLINE {
            1int
        } else {
            0int
        },
{
    lemma_split_len(s);
    if s.len() > 0 && s.last() == NEWLINE {
        assert(count_newlines(s) >= 1);
    }
}

/// Splits `content` into its lines, exactly as `spec_lines` describes.
pub fn split_lines(content: &Vec<u8>) -> (r: Vec<Vec<u8>>)
    ensures
        r.deep_view() == spec_lines(content@),
{
    let mut done: Vec<Vec<u8>> = Vec::new();
    let mut cur: Vec<u8> = Vec::new();
    let mut i: usize = 0;
    while i < content.len()
        invariant
            i <= content@.len(),
            done.deep_view().push(cur@) == split_newlines(content@.take(i as int)),
        decreases content@.len() - i,
    {
        let b = content[i];
        proof {
            assert(content@.take(i + 1).drop_last() =~= content@.take(i as int));
            assert(content@.take(i + 1).last() == content@[i as int]);
        }
        if b == NEWLINE {
            let ghost pre_dv = done.deep_view();
            let ghost pre_v = done@;
            let ghost cur_view = cur@;
            done.push(cur);
            cur = Vec::new();
            proof {
                assert forall|j: int| 0 <= j < done@.len() implies #[trigger] done.deep_view()[j]
                    == pre_dv.push(cur_view)[j] by {
                    if j < pre_v.len() {
                        assert(done@[j] == pre_v[j]);
                    }
                }
                assert(done.deep_view() =~= pre_dv.push(cur_view));
                assert(done.deep_view().push(cur@) =~= split_newlines(content@.take(i + 1)));
            }
        } else {
            cur.push(b);
            proof {
                let t = split_newlines(content@.take(i as int));
                assert(split_newlines(content@.take(i + 1)) == t.update(t.len() - 1, t.last().push(b)));
                assert(done.deep_view().push(cur@) =~= t.update(t.len() - 1, t.last().push(b)));
            }
        }
        i += 1;
    }
    proof {
        assert(content@.take(content@.len() as int) =~= content@);
    }
    if content.len() > 0 && content[content.len() - 1] != NEWLINE {
        let ghost pre_dv = done.deep_view();
        let ghost pre_v = done@;
        let ghost cur_view = cur@;
        done.push(cur);
        proof {
            assert forall|j: int| 0 <= j < done@.len() implies #[trigger] done.deep_view()[j]
                == pre_dv.push(cur_view)[j] by {
                if j < pre_v.len() {
                    assert(done@[j] == pre_v[j]);
                }
            }
            assert(done.deep_view() =~= pre_dv.push(cur_view));
            assert(done.deep_view() =~= spec_lines(content@));
        }
        done
    } else {
        proof {
            assert(done.deep_view() =~= split_newlines(content@).drop_last());
        }
        done
    }
}

/// What printing lines looks like in bytes: each line followed by one
/// newline.
pub open spec fn join_newlines(ls: Seq<Seq<u8>>) -> Seq<u8>
    decreases ls.len(),
{
    if ls.len() == 0 {
        Seq::empty()
    } else {
        join_newlines(ls.drop_last()) + ls.last() + seq![NEWLINE]
    }
}

pub proof fn lemma_join_split(s: Seq<u8>)
    ensures
        join_newlines(split_newlines(s)) == s + seq![NEWLINE],
    decreases s.len(),
{
    if s.len() == 0 {
        assert(split_newlines(s) == seq![Seq::<u8>::empty()]);
        assert(seq![Seq::<u8>::empty()].drop_last() =~= Seq::<Seq<u8>>::empty());
        assert(seq![Seq::<u8>::empty()].last() =~= Seq::<u8>::empty());
        assert(join_newlines(Seq::<Seq<u8>>::empty()) == Seq::<u8>::empty());
        assert(join_newlines(split_newlines(s)) =~= s + seq![NEWLINE]);
    } else {
        let s1 = s.drop_last();
        let b = s.last();
        lemma_join_split(s1);
        let t = split_newlines(s1);
        if b == NEWLINE {
            assert(split_newlines(s) == t.push(Seq::<u8>::empty()));
            assert(t.push(Seq::<u8>::empty()).drop_last() =~= t);
            assert(join_newlines(split_newlines(s)) =~= s + seq![NEWLINE]);
        } else {
            let u = t.update(t.len() - 1, t.last().push(b));
            assert(split_newlines(s) == u);
            assert(u.drop_last() =~= t.drop_last());
            assert(u.last() == t.last().push(b));
            assert(join_newlines(t) == join_newlines(t.drop_last()) + t.last() + seq![NEWLINE]);
            assert((join_newlines(t.drop_last()) + t.last() + seq![NEWLINE]).drop_last() =~=
                join_newlines(t.drop_last()) + t.last());
            assert((s1 + seq![NEWLINE]).drop_last() =~= s1);
            assert(join_newlines(t.drop_last()) + t.last() == s1);
            assert(join_newlines(u) == join_newlines(t.drop_last()) + t.last().push(b) + seq![
                NEWLINE
            ]);
            assert(join_newlines(t.drop_last()) + t.last().push(b) =~= s1.push(b));
            assert(s =~= s1.push(b));
            assert(join_newlines(u) =~= s + seq![NEWLINE]);
        }
    }
}

/// Printing every line of a file that ends in a newline (or is empty), each
/// followed by one newline, reproduces the file byte for byte.
pub proof fn lemma_dump_restores_file(s: Seq<u8>)
    requires
        s.len() == 0 || s.last() == NEWLINE,
    ensures
        join_newlines(spec_lines(s)) == s,
{
    if s.len() == 0 {
        assert(spec_lines(s) =~= Seq::<Seq<u8>>::empty());
    } else {
        let s1 = s.drop_last();
        lemma_join_split(s1);
        assert(split_newlines(s) == split_newlines(s1).push(Seq::<u8>::empty()));
        assert(spec_lines(s) =~= split_newlines(s1));
        assert(s1 + seq![NEWLINE] =~= s);
    }
}

/// The first `limit` lines, or all of them when no limit is given or the
/// file has fewer.
pub open spec fn head_spec(s: Seq<u8>, limit: Option<usize>) -> Seq<Seq<u8>> {
    let ls = spec_lines(s);
    match limit {
        Option::None => ls,
        Option::Some(l) => if l >= ls.len() {
            ls
        } else {
            ls.take(l as int)
        },
    }
}

/// Keeps the first `min(limit, L)` lines of `content`, in their original
/// order; with no limit, every line.
pub fn head_lines(content: &Vec<u8>, limit: Option<usize>) -> (r: Vec<Vec<u8>>)
    ensures
        r.deep_view() == head_spec(content@, limit),
        limit is None ==> r.deep_view() == spec_lines(content@),
{
    let mut all = split_lines(content);
    match limit {
        Option::None => all,
        Option::Some(l) => {
            if l < all.len() {
                let rest = all.split_off(l);
                proof {
                    assert(all.deep_view() =~= spec_lines(content@).take(l as int));
                }
                all
            } else {
                all
            }
        },
    }
}

} // verus!
