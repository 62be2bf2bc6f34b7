//! The restore side: which archives a run reads, in what order, and what it
//! posts back to the core.

use crate::args::{extra_param_spec, Restore};
use crate::fails::Failed;
use crate::helpers::{contains_sub, is_suffix, with_suffix_spec};
use crate::helpers::{append, contains_str, ends_with_str, to_chars, with_suffix};
use crate::models::{commit_param_spec, SortOrder};
use vstd::prelude::*;

verus! {

// region search pattern and update URL

/// The wildcard a restore searches with: the configured pattern, completed
/// with a `*` unless it already names archives; by default every archive of
/// the core.
pub open spec fn search_pattern_spec(r: Restore) -> Seq<char> {
    match r.search {
        Some(pat) => {
            if is_suffix(pat@, ".zip"@) || contains_sub(pat@, seq!['*']) {
                pat@
            } else {
                pat@ + "*"@
            }
        },
        None => r.options.core@ + "*.zip"@,
    }
}

impl Restore {
    /// The full search pattern: the archive directory and the wildcard.
    pub fn get_pattern(&self) -> (r: String)
        ensures
            r@ == with_suffix_spec(self.transfer.dir@, "/"@) + search_pattern_spec(*self),
    {
        let wilcard: String = match &self.search {
            Some(pat) => {
                proof {
                    reveal_strlit("*");
                }
                if ends_with_str(pat.as_str(), ".zip") || contains_str(pat.as_str(), "*") {
                    proof {
                        assert("*"@ =~= seq!['*']);
                    }
                    pat.clone()
                } else {
                    proof {
                        assert("*"@ =~= seq!['*']);
                    }
                    append(pat.as_str(), "*")
                }
            },
            None => append(self.options.core.as_str(), "*.zip"),
        };
        let base = with_suffix(self.transfer.dir.as_str(), "/");
        append(base.as_str(), wilcard.as_str())
    }

    /// The update-handler URL documents are posted to: the JSON document
    /// path with overwriting on, the commit-mode parameter, and the extra
    /// parameter.
    pub fn get_update_url(&self) -> (r: String)
        ensures
            r@ == crate::args::core_handler_url_spec(
                self.options,
                "/update/json/docs?overwrite=true"@,
            ) + commit_param_spec(self.flush, "&"@) + extra_param_spec(
                self.transfer.params,
                "&"@,
            ),
    {
        let head = self.options.get_core_handler_url("/update/json/docs?overwrite=true");
        let flush = self.flush.as_param("&");
        let extra = self.transfer.get_param("&");
        let r1 = append(head.as_str(), flush.as_str());
        append(r1.as_str(), extra.as_str())
    }
}

// endregion

// region archive order

/// Lexicographic order on text, by code point.
pub open spec fn lex_leq(a: Seq<char>, b: Seq<char>) -> bool
    decreases a.len(),
{
    if a.len() == 0 {
        true
    } else if b.len() == 0 {
        false
    } else if (a[0] as u32) < (b[0] as u32) {
        true
    } else if (a[0] as u32) > (b[0] as u32) {
        false
    } else {
        lex_leq(a.skip(1), b.skip(1))
    }
}

/// One text precedes the other, either way around.
pub proof fn lemma_lex_total(a: Seq<char>, b: Seq<char>)
    ensures
        lex_leq(a, b) || lex_leq(b, a),
    decreases a.len(),
{
    if a.len() > 0 && b.len() > 0 && (a[0] as u32) == (b[0] as u32) {
        lemma_lex_total(a.skip(1), b.skip(1));
    }
}

/// Every text precedes itself.
pub proof fn lemma_lex_refl(a: Seq<char>)
    ensures
        lex_leq(a, a),
    decreases a.len(),
{
    if a.len() > 0 {
        lemma_lex_refl(a.skip(1));
    }
}

/// Lexicographic order chains.
pub proof fn lemma_lex_trans(a: Seq<char>, b: Seq<char>, c: Seq<char>)
    requires
        lex_leq(a, b),
        lex_leq(b, c),
    ensures
        lex_leq(a, c),
    decreases a.len(),
{
    if a.len() > 0 && b.len() > 0 && c.len() > 0 && (a[0] as u32) == (b[0] as u32) && (
    b[0] as u32) == (c[0] as u32) {
        lemma_lex_trans(a.skip(1), b.skip(1), c.skip(1));
    }
}

proof fn lemma_lex_skip_eq(a: Seq<char>, b: Seq<char>, i: int)
    requires
        0 <= i <= a.len(),
        i <= b.len(),
        forall|k: int| 0 <= k < i ==> a[k] == b[k],
    ensures
        lex_leq(a, b) == lex_leq(a.skip(i), b.skip(i)),
    decreases i,
{
    if i > 0 && a.len() > 0 && b.len() > 0 {
        assert(a[0] == b[0]);
        assert(lex_leq(a, b) == lex_leq(a.skip(1), b.skip(1)));
        assert forall|k: int| 0 <= k < i - 1 implies a.skip(1)[k] == b.skip(1)[k] by {
            assert(a[k + 1] == b[k + 1]);
        }
        lemma_lex_skip_eq(a.skip(1), b.skip(1), i - 1);
        assert(a.skip(1).skip(i - 1) =~= a.skip(i));
        assert(b.skip(1).skip(i - 1) =~= b.skip(i));
    } else {
        assert(a.skip(0) =~= a);
        assert(b.skip(0) =~= b);
    }
}

/// Whether `a` precedes `b` lexicographically (or equals it).
pub fn str_le(a: &str, b: &str) -> (r: bool)
    ensures
        r == lex_leq(a@, b@),
{
    let av = to_chars(a);
    let bv = to_chars(b);
    let an = av.len();
    let bn = bv.len();
    let mut i: usize = 0;
    while i < an && i < bn
        invariant
            an == av@.len(),
            bn == bv@.len(),
            av@ == a@,
            bv@ == b@,
            i <= an,
            i <= bn,
            forall|k: int| 0 <= k < i ==> a@[k] == b@[k],
        decreases an - i,
    {
        let x = av[i] as u32;
        let y = bv[i] as u32;
        if x < y {
            proof {
                lemma_lex_skip_eq(a@, b@, i as int);
            }
            return true;
        }
        if x > y {
            proof {
                lemma_lex_skip_eq(a@, b@, i as int);
            }
            return false;
        }
        proof {
            assert(a@[i as int] as u32 == b@[i as int] as u32);
            assert(a@[i as int] == b@[i as int]) by {
                vstd::utf8::char_u32_cast(a@[i as int], a@[i as int] as u32);
                vstd::utf8::char_u32_cast(b@[i as int], b@[i as int] as u32);
            }
        }
        i += 1;
    }
    proof {
        lemma_lex_skip_eq(a@, b@, if i < an {
            bn as int
        } else {
            an as int
        });
    }
    an <= bn
}

/// The texts of a string sequence.
pub open spec fn views_of(v: Seq<String>) -> Seq<Seq<char>> {
    v.map_values(|s: String| s@)
}

/// Ascending lexicographic order, element by element.
pub open spec fn sorted_lex(v: Seq<String>) -> bool {
    forall|i: int, j: int| 0 <= i < j < v.len() ==> lex_leq(v[i]@, v[j]@)
}

/// Descending lexicographic order, element by element.
pub open spec fn sorted_lex_desc(v: Seq<String>) -> bool {
    forall|i: int, j: int| 0 <= i < j < v.len() ==> lex_leq(v[j]@, v[i]@)
}

fn take_min(work: &mut Vec<String>) -> (r: String)
    requires
        old(work)@.len() >= 1,
    ensures
        final(work)@.len() == old(work)@.len() - 1,
        old(work)@.to_multiset() == final(work)@.to_multiset().insert(r),
        forall|k: int| 0 <= k < final(work)@.len() ==> lex_leq(r@, (#[trigger] final(work)@[k])@),
{
    let mut best: usize = 0;
    let mut i: usize = 1;
    proof {
        lemma_lex_refl(work@[0]@);
    }
    while i < work.len()
        invariant
            work@.len() >= 1,
            best < i <= work@.len(),
            forall|k: int| 0 <= k < i ==> lex_leq(work@[best as int]@, (#[trigger] work@[k])@),
        decreases work@.len() - i,
    {
        let keep_best = str_le(work[best].as_str(), work[i].as_str());
        proof {
            if keep_best {
                lemma_lex_refl(work@[i as int]@);
            }
        }
        if !keep_best {
            proof {
                lemma_lex_total(work@[best as int]@, work@[i as int]@);
                lemma_lex_refl(work@[i as int]@);
                let ob = work@[best as int]@;
                assert forall|k: int| 0 <= k < i + 1 implies lex_leq(
                    work@[i as int]@,
                    (#[trigger] work@[k])@,
                ) by {
                    if k < i {
                        lemma_lex_trans(work@[i as int]@, ob, work@[k]@);
                    }
                }
            }
            best = i;
        }
        i += 1;
    }
    let ghost before = work@;
    let r = work.remove(best);
    proof {
        broadcast use vstd::seq_lib::group_to_multiset_ensures;

        assert(before.remove(best as int).to_multiset() =~= before.to_multiset().remove(
            before[best as int],
        ));
        assert(before.to_multiset().contains(before[best as int])) by {
            assert(before.contains(before[best as int]));
        }
        assert(before.to_multiset() =~= before.remove(best as int).to_multiset().insert(r));
        assert forall|k: int| 0 <= k < work@.len() implies lex_leq(
            r@,
            (#[trigger] work@[k])@,
        ) by {
            if k < best {
                assert(work@[k] == before[k]);
            } else {
                assert(work@[k] == before[k + 1]);
            }
        }
    }
    r
}

/// The archives in ascending lexicographic order of their paths.
pub fn sort_paths(found: Vec<String>) -> (r: Vec<String>)
    ensures
        sorted_lex(r@),
        r@.to_multiset() == found@.to_multiset(),
        r@.len() == found@.len(),
{
    let ghost input = found@;
    let mut work = found;
    let mut out: Vec<String> = Vec::new();
    proof {
        broadcast use vstd::seq_lib::group_to_multiset_ensures;

        assert(out@.to_multiset().add(work@.to_multiset()) =~= input.to_multiset());
    }
    while work.len() > 0
        invariant
            out@.to_multiset().add(work@.to_multiset()) == input.to_multiset(),
            out@.len() + work@.len() == input.len(),
            sorted_lex(out@),
            forall|i: int, k: int|
                0 <= i < out@.len() && 0 <= k < work@.len() ==> lex_leq(
                    (#[trigger] out@[i])@,
                    (#[trigger] work@[k])@,
                ),
        decreases work@.len(),
    {
        let ghost owork = work@;
        let ghost oout = out@;
        let x = take_min(&mut work);
        out.push(x);
        proof {
            broadcast use vstd::seq_lib::group_to_multiset_ensures;

            assert(out@.to_multiset() =~= oout.to_multiset().insert(x));
            assert(out@.to_multiset().add(work@.to_multiset()) =~= oout.to_multiset().add(
                owork.to_multiset(),
            ));
            assert forall|i: int, j: int| 0 <= i < j < out@.len() implies lex_leq(
                (#[trigger] out@[i])@,
                (#[trigger] out@[j])@,
            ) by {
                if j == out@.len() - 1 {
                    assert(owork.to_multiset().contains(x)) by {
                        assert(owork.to_multiset() =~= work@.to_multiset().insert(x));
                    }
                    assert(owork.contains(x));
                    let w = choose|w: int| 0 <= w < owork.len() && owork[w] == x;
                    assert(lex_leq(oout[i]@, owork[w]@));
                } else {
                    assert(lex_leq(oout[i]@, oout[j]@));
                }
            }
            assert forall|i: int, k: int|
                0 <= i < out@.len() && 0 <= k < work@.len() implies lex_leq(
                (#[trigger] out@[i])@,
                (#[trigger] work@[k])@,
            ) by {
                if i == out@.len() - 1 {
                    assert(lex_leq(x@, work@[k]@));
                } else {
                    assert(work@.to_multiset().contains(work@[k])) by {
                        assert(work@.contains(work@[k]));
                    }
                    assert(owork.to_multiset().count(work@[k]) >= work@.to_multiset().count(
                        work@[k],
                    )) by {
                        assert(owork.to_multiset() =~= work@.to_multiset().insert(x));
                    }
                    assert(owork.to_multiset().contains(work@[k]));
                    assert(owork.contains(work@[k]));
                    let w = choose|w: int| 0 <= w < owork.len() && owork[w] == work@[k];
                    assert(lex_leq(oout[i]@, owork[w]@));
                }
            }
        }
    }
    out
}

/// The found archives in the requested order: untouched, ascending, or
/// descending by path.
pub fn order_archives(found: Vec<String>, order: SortOrder) -> (r: Vec<String>)
    ensures
        r@.len() == found@.len(),
        order == SortOrder::Off ==> r@ == found@,
        order == SortOrder::Asc ==> sorted_lex(r@) && r@.to_multiset() == found@.to_multiset(),
        order == SortOrder::Desc ==> sorted_lex_desc(r@) && r@.to_multiset()
            == found@.to_multiset(),
    {
    match order {
        SortOrder::Off => found,
        SortOrder::Asc => sort_paths(found),
        SortOrder::Desc => {
            let sorted = sort_paths(found);
            let ghost asc = sorted@;
            let mut out: Vec<String> = Vec::new();
            let mut i: usize = sorted.len();
            while i > 0
                invariant
                    i <= asc.len(),
                    asc == sorted@,
                    sorted_lex(asc),
                    out@.len() == asc.len() - i,
                    forall|k: int| 0 <= k < out@.len() ==> out@[k] == asc[asc.len() - 1 - k],
                decreases i,
            {
                i -= 1;
                out.push(sorted[i].clone());
            }
            proof {
                assert forall|a: int, b: int| 0 <= a < b < out@.len() implies lex_leq(
                    (#[trigger] out@[b])@,
                    (#[trigger] out@[a])@,
                ) by {
                    assert(out@[a] == asc[asc.len() - 1 - a]);
                    assert(out@[b] == asc[asc.len() - 1 - b]);
                }
                assert(out@ =~= asc.reverse());
                asc.lemma_reverse_to_multiset();
            }
            out
        },
    }
}

// endregion

// region batch estimate and finishing

/// How many entries the found archives are assumed to hold: the first
/// archive's entry count times the archive count; nothing to estimate from
/// when the first archive cannot be opened or the product does not fit.
pub fn estimate_batch_count(zip_count: u64, first_file_count: Option<u64>) -> (r: Result<
    u64,
    Failed,
>)
    ensures
        match first_file_count {
            None => r is Err,
            Some(c) => {
                if c * zip_count <= u64::MAX {
                    r is Ok && r->Ok_0 == c * zip_count
                } else {
                    r is Err
                }
            },
        },
{
    match first_file_count {
        None => Err(Failed::new("Error opening the first archive")),
        Some(c) => {
            proof {
                vstd::arithmetic::mul::lemma_mul_upper_bound(
                    c as int,
                    u64::MAX as int,
                    zip_count as int,
                    u64::MAX as int,
                );
                vstd::arithmetic::mul::lemma_mul_nonnegative(c as int, zip_count as int);
            }
            let wide: u128 = (c as u128) * (zip_count as u128);
            if wide > 0xffff_ffff_ffff_ffffu128 {
                Err(Failed::new("Too many entries to estimate"))
            } else {
                Ok(wide as u64)
            }
        },
    }
}

/// What a restore does once its queues have drained.
pub enum FinishAction {
    /// The run was aborted by the user: report and exit non-zero.
    Abort,
    /// Issue the final hard commit.
    Commit,
    /// Nothing left to do.
    Done,
}

/// Decides how a restore ends: an abort wins; otherwise a final commit is
/// owed exactly when something was updated and the run does not opt out.
pub fn finish_action(aborted: bool, updated: u64, no_final_commit: bool) -> (r: FinishAction)
    ensures
        aborted ==> r == FinishAction::Abort,
        !aborted && updated > 0 && !no_final_commit ==> r == FinishAction::Commit,
        !aborted && (updated == 0 || no_final_commit) ==> r == FinishAction::Done,
{
    if aborted {
        FinishAction::Abort
    } else if updated > 0 && !no_final_commit {
        FinishAction::Commit
    } else {
        FinishAction::Done
    }
}

// endregion

} // verus!
