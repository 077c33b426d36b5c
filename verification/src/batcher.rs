//! The range batcher: scan an ordered sequence of hunks once and group the
//! maximal contiguous runs that share a destination file, one `FileGroup` per
//! run, each holding one range descriptor per hunk in input order.

use vstd::prelude::*;

use crate::hunks::{descr_of, descriptor_of, clone_string, FileGroup, FileGroupV, Hunk, HunkV,
    RangeDescriptor, RangeDescriptorV};

verus! {

/// The views of a sequence of hunks.
pub open spec fn hunk_views(s: Seq<Hunk>) -> Seq<HunkV> {
    s.map(|i: int, h: Hunk| h@)
}

/// The views of a sequence of groups.
pub open spec fn group_views(s: Seq<FileGroup>) -> Seq<FileGroupV> {
    s.map(|i: int, g: FileGroup| g@)
}

/// The groups that batching a hunk sequence yields: one group per maximal
/// contiguous run of hunks naming the same destination file, holding the
/// descriptors of that run's hunks in input order.
pub open spec fn groups_of(s: Seq<HunkV>) -> Seq<FileGroupV>
    decreases s.len(),
{
    if s.len() == 0 {
        Seq::empty()
    } else {
        let rest = groups_of(s.drop_first());
        let d = descr_of(s[0]);
        if rest.len() > 0 && rest[0].file == s[0].file {
            seq![FileGroupV { file: s[0].file, descriptors: seq![d] + rest[0].descriptors }]
                + rest.drop_first()
        } else {
            seq![FileGroupV { file: s[0].file, descriptors: seq![d] }] + rest
        }
    }
}

/// The number of maximal contiguous runs of equal destination-file values.
pub open spec fn run_count(s: Seq<HunkV>) -> nat
    decreases s.len(),
{
    if s.len() == 0 {
        0
    } else if s.len() == 1 {
        1
    } else if s[0].file == s[1].file {
        run_count(s.drop_first())
    } else {
        1 + run_count(s.drop_first())
    }
}

/// Basic shape of the grouping: a non-empty input yields at least one group,
/// the first group names the first hunk's file and the last group the last
/// hunk's file.
proof fn lemma_groups_of_shape(s: Seq<HunkV>)
    requires
        s.len() > 0,
    ensures
        groups_of(s).len() > 0,
        groups_of(s)[0].file == s[0].file,
        groups_of(s).last().file == s.last().file,
    decreases s.len(),
{
    let rest = groups_of(s.drop_first());
    let d = descr_of(s[0]);
    if s.len() == 1 {
        assert(s.drop_first().len() == 0);
        assert(groups_of(s) == seq![FileGroupV { file: s[0].file, descriptors: seq![d] }]);
        assert(s.last() == s[0]);
    } else {
        lemma_groups_of_shape(s.drop_first());
        assert(s.drop_first().last() == s.last());
        if rest[0].file == s[0].file {
            let merged = FileGroupV { file: s[0].file, descriptors: seq![d] + rest[0].descriptors };
            assert(groups_of(s) == seq![merged] + rest.drop_first());
            if rest.len() == 1 {
                assert(groups_of(s).len() == 1);
                assert(groups_of(s).last() == merged);
                assert(rest.last() == rest[0]);
            } else {
                assert(groups_of(s).last() == rest.drop_first().last());
                assert(rest.drop_first().last() == rest.last());
            }
        } else {
            assert(groups_of(s) == seq![FileGroupV { file: s[0].file, descriptors: seq![d] }] + rest);
            assert(groups_of(s).last() == rest.last());
        }
    }
}

/// The number of flush events equals the number of maximal contiguous runs of
/// equal destination-file values in the input order.
pub proof fn lemma_flush_count_is_run_count(s: Seq<HunkV>)
    ensures
        groups_of(s).len() == run_count(s),
    decreases s.len(),
{
    let rest = groups_of(s.drop_first());
    let d = descr_of(s[0]);
    if s.len() == 0 {
    } else if s.len() == 1 {
        assert(s.drop_first().len() == 0);
        assert(groups_of(s) == seq![FileGroupV { file: s[0].file, descriptors: seq![d] }]);
    } else {
        lemma_flush_count_is_run_count(s.drop_first());
        lemma_groups_of_shape(s.drop_first());
        assert(s.drop_first()[0] == s[1]);
        if rest[0].file == s[0].file {
            let merged = FileGroupV { file: s[0].file, descriptors: seq![d] + rest[0].descriptors };
            assert(groups_of(s) == seq![merged] + rest.drop_first());
            assert(groups_of(s).len() == rest.len());
        } else {
            assert(groups_of(s) == seq![FileGroupV { file: s[0].file, descriptors: seq![d] }] + rest);
            assert(groups_of(s).len() == 1 + rest.len());
        }
    }
}

/// A group holding exactly the one descriptor of hunk `h`.
pub open spec fn singleton_group(h: HunkV) -> FileGroupV {
    FileGroupV { file: h.file, descriptors: seq![descr_of(h)] }
}

/// How the grouping grows when one hunk is appended: a first hunk opens a
/// group, a hunk on the last group's file extends that group, any other hunk
/// opens a new group after it.
proof fn lemma_groups_of_push(s: Seq<HunkV>, h: HunkV)
    ensures
        s.len() == 0 ==> groups_of(s.push(h)) == seq![singleton_group(h)],
        s.len() > 0 && h.file == s.last().file ==> groups_of(s.push(h)) == groups_of(s).update(
            groups_of(s).len() - 1,
            FileGroupV {
                file: groups_of(s).last().file,
                descriptors: groups_of(s).last().descriptors.push(descr_of(h)),
            },
        ),
        s.len() > 0 && h.file != s.last().file ==> groups_of(s.push(h)) == groups_of(s).push(
            singleton_group(h),
        ),
    decreases s.len(),
{
    if s.len() == 0 {
        assert(s.push(h) =~= seq![h]);
        assert(seq![h].drop_first() =~= Seq::<HunkV>::empty());
        assert(groups_of(Seq::<HunkV>::empty()) == Seq::<FileGroupV>::empty());
        assert(groups_of(s.push(h)) =~~= seq![singleton_group(h)]);
    } else {
        lemma_groups_of_shape(s);
        let t = s.drop_first();
        assert(s.push(h).drop_first() =~= t.push(h));
        assert(s.push(h)[0] == s[0]);
        assert(s.push(h).len() > 0);
        let d0 = descr_of(s[0]);
        let g0 = FileGroupV { file: s[0].file, descriptors: seq![d0] };
        lemma_groups_of_push(t, h);
        let rest = groups_of(t);
        let rest2 = groups_of(t.push(h));
        let gs = groups_of(s);
        let last = (gs.len() - 1) as int;
        let pushed = FileGroupV {
            file: gs.last().file,
            descriptors: gs.last().descriptors.push(descr_of(h)),
        };
        if t.len() == 0 {
            assert(s.last() == s[0]);
            assert(rest2 =~~= seq![singleton_group(h)]);
            assert(gs =~~= seq![g0]);
            if h.file == s[0].file {
                assert(seq![d0] + seq![descr_of(h)] =~= seq![d0].push(descr_of(h)));
                assert(groups_of(s.push(h)) =~~= gs.update(last, pushed));
            } else {
                assert(groups_of(s.push(h)) =~~= gs.push(singleton_group(h)));
            }
        } else {
            lemma_groups_of_shape(t);
            assert(t.last() == s.last());
            assert(t[0] == s[1]);
            if h.file == s.last().file {
                // the appended hunk extends the final group
                assert(rest2 =~~= rest.update(
                    rest.len() - 1,
                    FileGroupV {
                        file: rest.last().file,
                        descriptors: rest.last().descriptors.push(descr_of(h)),
                    },
                ));
                assert(rest2.len() == rest.len());
                assert(rest2[0].file == rest[0].file);
                if rest[0].file == s[0].file {
                    if rest.len() == 1 {
                        assert(rest2[0].descriptors == rest[0].descriptors.push(descr_of(h)));
                        assert(seq![d0] + rest[0].descriptors.push(descr_of(h)) =~= (seq![d0]
                            + rest[0].descriptors).push(descr_of(h)));
                        assert(groups_of(s.push(h)) =~~= gs.update(last, pushed));
                    } else {
                        assert(rest2[0] == rest[0]);
                        assert(groups_of(s.push(h)) =~~= gs.update(last, pushed));
                    }
                } else {
                    assert(groups_of(s.push(h)) =~~= gs.update(last, pushed));
                }
            } else {
                // the appended hunk opens a new group
                assert(rest2 =~~= rest.push(singleton_group(h)));
                assert(rest2[0] == rest[0]);
                if rest[0].file == s[0].file {
                    assert(groups_of(s.push(h)) =~~= gs.push(singleton_group(h)));
                } else {
                    assert(groups_of(s.push(h)) =~~= gs.push(singleton_group(h)));
                }
            }
        }
    }
}

/// A well-formed group: it holds at least one descriptor, every descriptor
/// names the group's file, and every range runs forward.
pub open spec fn group_wf(g: FileGroupV) -> bool {
    &&& g.descriptors.len() > 0
    &&& forall|j: int|
        0 <= j < g.descriptors.len() ==> (#[trigger] g.descriptors[j]).file == g.file
            && g.descriptors[j].start <= g.descriptors[j].end
}

/// Every flushed group is well-formed, and adjacent groups name different
/// files: each group really is a maximal contiguous run.
pub proof fn lemma_groups_well_formed(s: Seq<HunkV>)
    ensures
        forall|i: int| 0 <= i < groups_of(s).len() ==> group_wf(#[trigger] groups_of(s)[i]),
        forall|i: int|
            0 <= i && i + 1 < groups_of(s).len() ==> (#[trigger] groups_of(s)[i]).file
                != groups_of(s)[i + 1].file,
    decreases s.len(),
{
    if s.len() > 0 {
        let t = s.drop_first();
        lemma_groups_well_formed(t);
        let rest = groups_of(t);
        let d0 = descr_of(s[0]);
        let gs = groups_of(s);
        if rest.len() > 0 && rest[0].file == s[0].file {
            let merged = FileGroupV {
                file: s[0].file,
                descriptors: seq![d0] + rest[0].descriptors,
            };
            assert(gs == seq![merged] + rest.drop_first());
            assert(group_wf(rest[0]));
            assert(forall|j: int|
                1 <= j < merged.descriptors.len() ==> merged.descriptors[j]
                    == rest[0].descriptors[j - 1]);
            assert(merged.descriptors[0] == d0);
            assert(group_wf(merged));
            assert(forall|i: int| 1 <= i < gs.len() ==> gs[i] == rest[i]);
            assert(forall|i: int|
                0 <= i && i + 1 < gs.len() ==> (#[trigger] gs[i]).file != gs[i + 1].file);
        } else {
            let g0 = FileGroupV { file: s[0].file, descriptors: seq![d0] };
            assert(gs == seq![g0] + rest);
            assert(g0.descriptors[0] == d0);
            assert(group_wf(g0));
            if rest.len() > 0 {
                lemma_groups_of_shape(t);
                assert(gs[1] == rest[0]);
            }
            assert(forall|i: int| 1 <= i < gs.len() ==> gs[i] == rest[i - 1]);
            assert(forall|i: int|
                0 <= i && i + 1 < gs.len() ==> (#[trigger] gs[i]).file != gs[i + 1].file);
        }
    }
}

/// The descriptors of all groups, in flush order.
pub open spec fn all_descriptors(gs: Seq<FileGroupV>) -> Seq<RangeDescriptorV>
    decreases gs.len(),
{
    if gs.len() == 0 {
        Seq::empty()
    } else {
        gs[0].descriptors + all_descriptors(gs.drop_first())
    }
}

/// Every hunk yields exactly one range descriptor, in input order: the
/// descriptors of all groups, concatenated in flush order, are the hunks'
/// descriptors in input order. In particular the descriptor of the `p`-th
/// hunk names that hunk's file and satisfies `start == line` and
/// `end == line + count`, so `end - start == count`.
pub proof fn lemma_descriptors_exact(s: Seq<HunkV>)
    ensures
        all_descriptors(groups_of(s)) == s.map(|i: int, h: HunkV| descr_of(h)),
        forall|p: int|
            0 <= p < s.len() ==> #[trigger] all_descriptors(groups_of(s))[p] == descr_of(s[p]),
    decreases s.len(),
{
    let m = s.map(|i: int, h: HunkV| descr_of(h));
    if s.len() == 0 {
        assert(all_descriptors(groups_of(s)) =~= m);
    } else {
        let t = s.drop_first();
        lemma_descriptors_exact(t);
        let rest = groups_of(t);
        let d0 = descr_of(s[0]);
        assert(t.map(|i: int, h: HunkV| descr_of(h)) =~= m.drop_first());
        if rest.len() > 0 && rest[0].file == s[0].file {
            let merged = FileGroupV {
                file: s[0].file,
                descriptors: seq![d0] + rest[0].descriptors,
            };
            let gs = seq![merged] + rest.drop_first();
            assert(groups_of(s) == gs);
            assert(gs[0] == merged);
            assert(gs.drop_first() =~= rest.drop_first());
            assert(all_descriptors(gs) == merged.descriptors + all_descriptors(rest.drop_first()));
            assert(all_descriptors(rest) == rest[0].descriptors + all_descriptors(
                rest.drop_first(),
            ));
            assert(all_descriptors(gs) =~= seq![d0] + all_descriptors(rest));
            assert(all_descriptors(gs) =~= m);
        } else {
            let g0 = FileGroupV { file: s[0].file, descriptors: seq![d0] };
            let gs = seq![g0] + rest;
            assert(groups_of(s) == gs);
            assert(gs[0] == g0);
            assert(gs.drop_first() =~= rest);
            assert(all_descriptors(gs) == g0.descriptors + all_descriptors(rest));
            assert(all_descriptors(gs) =~= m);
        }
    }
}

/// Scan the hunks once, in order, and return one group per maximal contiguous
/// run of hunks naming the same destination file; an empty input yields no
/// groups.
pub fn batch(hunks: &Vec<Hunk>) -> (groups: Vec<FileGroup>)
    requires
        forall|k: int|
            0 <= k < hunks@.len() ==> (#[trigger] hunks@[k])@.line + hunks@[k]@.count
                <= usize::MAX,
    ensures
        group_views(groups@) == groups_of(hunk_views(hunks@)),
        hunks@.len() == 0 ==> groups@.len() == 0,
{
    let ghost all = hunk_views(hunks@);
    let mut groups: Vec<FileGroup> = Vec::new();
    let mut cur_file: String = String::new();
    let mut descrs: Vec<RangeDescriptor> = Vec::new();
    let mut i: usize = 0;
    proof {
        assert(hunk_views(hunks@.take(0)) =~= Seq::<HunkV>::empty());
        assert(group_views(groups@) =~= Seq::<FileGroupV>::empty());
    }
    while i < hunks.len()
        invariant
            i <= hunks@.len(),
            forall|k: int|
                0 <= k < hunks@.len() ==> (#[trigger] hunks@[k])@.line + hunks@[k]@.count
                    <= usize::MAX,
            descrs@.len() > 0 <==> i > 0,
            i == 0 ==> groups@.len() == 0,
            i > 0 ==> cur_file@ == hunks@[i - 1]@.file,
            i > 0 ==> group_views(groups@).push(
                FileGroupV {
                    file: cur_file@,
                    descriptors: descrs@.map(|j: int, d: RangeDescriptor| d@),
                },
            ) == groups_of(hunk_views(hunks@.take(i as int))),
        decreases hunks@.len() - i,
    {
        let ghost prefix = hunk_views(hunks@.take(i as int));
        let h = &hunks[i];
        proof {
            assert(hunks@.take(i as int + 1) =~= hunks@.take(i as int).push(hunks@[i as int]));
            assert(hunk_views(hunks@.take(i as int + 1)) =~= prefix.push(h@));
            lemma_groups_of_push(prefix, h@);
            if i > 0 {
                lemma_groups_of_shape(prefix);
                assert(prefix.last() == hunks@[i - 1]@);
            }
        }
        let d = descriptor_of(h);
        if descrs.len() == 0 {
            cur_file = clone_string(&h.file);
            descrs.push(d);
            proof {
                assert(descrs@.map(|j: int, d: RangeDescriptor| d@) =~= seq![descr_of(h@)]);
                assert(group_views(groups@).push(
                    FileGroupV { file: cur_file@, descriptors: descrs@.map(|j: int, d: RangeDescriptor| d@) },
                ) =~~= groups_of(prefix.push(h@)));
            }
        } else if !cur_file.eq(&h.file) {
            let ghost old_groups = groups@;
            let ghost flushed = FileGroupV {
                file: cur_file@,
                descriptors: descrs@.map(|j: int, d: RangeDescriptor| d@),
            };
            let done = FileGroup { file: cur_file, descriptors: descrs };
            groups.push(done);
            cur_file = clone_string(&h.file);
            descrs = Vec::new();
            descrs.push(d);
            proof {
                assert(group_views(groups@) =~= group_views(old_groups).push(flushed));
                assert(descrs@.map(|j: int, d: RangeDescriptor| d@) =~= seq![descr_of(h@)]);
                assert(group_views(groups@).push(
                    FileGroupV { file: cur_file@, descriptors: descrs@.map(|j: int, d: RangeDescriptor| d@) },
                ) =~~= groups_of(prefix.push(h@)));
            }
        } else {
            let ghost old_descrs = descrs@;
            descrs.push(d);
            proof {
                let gs = groups_of(prefix);
                assert(descrs@.map(|j: int, d: RangeDescriptor| d@) =~= old_descrs.map(
                    |j: int, d: RangeDescriptor| d@,
                ).push(descr_of(h@)));
                assert(gs.last() == FileGroupV {
                    file: cur_file@,
                    descriptors: old_descrs.map(|j: int, d: RangeDescriptor| d@),
                });
                assert(group_views(groups@).push(
                    FileGroupV { file: cur_file@, descriptors: descrs@.map(|j: int, d: RangeDescriptor| d@) },
                ) =~~= gs.update(
                    gs.len() - 1,
                    FileGroupV {
                        file: gs.last().file,
                        descriptors: gs.last().descriptors.push(descr_of(h@)),
                    },
                ));
            }
        }
        i = i + 1;
    }
    proof {
        assert(hunks@.take(hunks@.len() as int) =~= hunks@);
    }
    if descrs.len() > 0 {
        let ghost old_groups = groups@;
        let ghost flushed = FileGroupV {
            file: cur_file@,
            descriptors: descrs@.map(|j: int, d: RangeDescriptor| d@),
        };
        let done = FileGroup { file: cur_file, descriptors: descrs };
        groups.push(done);
        proof {
            assert(group_views(groups@) =~= group_views(old_groups).push(flushed));
        }
    } else {
        proof {
            assert(hunk_views(hunks@) =~= Seq::<HunkV>::empty());
            assert(group_views(groups@) =~= Seq::<FileGroupV>::empty());
        }
    }
    groups
}

} // verus!
