//! Reading what the probe needs out of a Solr response: the document count,
//! the documents array, and the natural field names.

use crate::args::{is_word_char, Backup};
use crate::fails::Failed;
use crate::helpers::{
    all_digits, contains_sub, digits_val, has_sub_at, is_digit_char, is_first_match, is_last_match,
    opt_str_view, run_len,
};
use crate::helpers::{
    append, find_first_from, find_text_between, from_chars, lemma_exists_first_match,
    lemma_exists_last_match, lemma_run_len_props, parse_digits, scan_digit_run, subvec, to_chars,
    u64_to_string,
};
use crate::models::SolrCore;
use vstd::prelude::*;

verus! {

// region document count

/// A full count match at `i`: the count key, at least one digit, and the
/// comma that closes the number.
pub open spec fn nf_match_at(s: Seq<char>, i: int) -> bool {
    let key = "\"numFound\":"@;
    let d = run_len(s, i + key.len(), |c: char| is_digit_char(c));
    has_sub_at(s, key, i) && d >= 1 && i + key.len() + d < s.len() && s[i + key.len() + d] == ','
}

/// `i` is the leftmost full count match.
pub open spec fn is_first_nf(s: Seq<char>, i: int) -> bool {
    nf_match_at(s, i) && forall|j: int| 0 <= j < i ==> !nf_match_at(s, j)
}

/// The count the response reports: the digits of the leftmost full count
/// match; nothing when there is none.
pub open spec fn num_found_of(s: Seq<char>) -> Option<nat> {
    let key = "\"numFound\":"@;
    if exists|i: int| is_first_nf(s, i) {
        let i = choose|i: int| is_first_nf(s, i);
        let d = run_len(s, i + key.len(), |c: char| is_digit_char(c));
        Some(digits_val(s.subrange(i + key.len(), i + key.len() + d)))
    } else {
        None
    }
}

proof fn lemma_first_nf_unique(s: Seq<char>, i: int, j: int)
    requires
        is_first_nf(s, i),
        is_first_nf(s, j),
    ensures
        i == j,
{
    if i < j {
        assert(!nf_match_at(s, i));
    }
    if j < i {
        assert(!nf_match_at(s, j));
    }
}

impl SolrCore {
    /// Reads the reported document count out of a response body.
    pub fn parse_num_found(json: &str) -> (r: Result<u64, Failed>)
        ensures
            match num_found_of(json@) {
                Some(v) => {
                    if v <= u64::MAX {
                        r is Ok && r->Ok_0 == v
                    } else {
                        r is Err
                    }
                },
                None => r is Err,
            },
    {
        let v = to_chars(json);
        let key = to_chars("\"numFound\":");
        proof {
            reveal_strlit("\"numFound\":");
        }
        let n = v.len();
        let mut start: usize = 0;
        while start < n
            invariant
                v@ == json@,
                key@ == "\"numFound\":"@,
                key@.len() == 11,
                n == v@.len(),
                start <= n,
                forall|j: int| 0 <= j < start ==> !nf_match_at(json@, j),
            decreases n - start,
        {
            let i = match find_first_from(&v, &key, start) {
                None => {
                    proof {
                        assert(forall|j: int| 0 <= j ==> !nf_match_at(json@, j));
                    }
                    return Err(Failed::from(
                        append("Error parsing numFound from solr response: ", json),
                    ));
                },
                Some(i) => i,
            };
            proof {
                assert(i + 11 <= n);
            }
            let d = scan_digit_run(&v, i + 11);
            let full = d >= 1 && i + 11 + d < n && v[i + 11 + d] == ',';
            if full {
                proof {
                    assert(is_first_nf(json@, i as int));
                    let i0 = choose|i0: int| is_first_nf(json@, i0);
                    lemma_first_nf_unique(json@, i as int, i0);
                    lemma_run_len_props(json@, i + 11, |c: char| is_digit_char(c));
                }
                let digits = subvec(&v, i + 11, i + 11 + d);
                proof {
                    assert forall|k: int| 0 <= k < digits@.len() implies is_digit_char(
                        #[trigger] digits@[k],
                    ) by {
                        assert(digits@[k] == json@[i + 11 + k]);
                    }
                }
                match parse_digits(&digits) {
                    Some(x) => {
                        return Ok(x);
                    },
                    None => {
                        return Err(Failed::from(
                            append("Error converting numFound from solr response: ", json),
                        ));
                    },
                }
            } else {
                proof {
                    assert(!nf_match_at(json@, i as int));
                }
                start = i + 1;
            }
        }
        proof {
            assert(forall|j: int| 0 <= j ==> !nf_match_at(json@, j));
        }
        Err(Failed::from(append("Error parsing numFound from solr response: ", json)))
    }
}

// endregion

// region documents array

/// The documents array of a response: the text between the first `docs":`
/// and the last `}}`; nothing when the envelope does not close.
pub open spec fn docs_row_of(s: Seq<char>) -> Option<Seq<char>> {
    let a = "docs\":"@;
    let b = "}}"@;
    if contains_sub(s, a) && contains_sub(s, b) {
        let i = choose|i: int| is_first_match(s, a, i);
        let j = choose|j: int| is_last_match(s, b, j);
        if i + a.len() < j {
            Some(s.subrange(i + a.len(), j))
        } else {
            None
        }
    } else {
        None
    }
}

impl SolrCore {
    /// Cuts the raw documents array out of a response body.
    pub fn parse_docs_from_query(json: &str) -> (r: Option<String>)
        ensures
            opt_str_view(r) == docs_row_of(json@),
    {
        proof {
            reveal_strlit("docs\":");
            reveal_strlit("}}");
        }
        let r = find_text_between(json, "docs\":", "}}");
        proof {
            let s = json@;
            let a = "docs\":"@;
            let b = "}}"@;
            if contains_sub(s, a) && contains_sub(s, b) {
                let k1 = choose|k: int| has_sub_at(s, a, k);
                lemma_exists_first_match(s, a, k1);
                let k2 = choose|k: int| has_sub_at(s, b, k);
                lemma_exists_last_match(s, b, k2);
                let i = choose|i: int| is_first_match(s, a, i);
                let j = choose|j: int| is_last_match(s, b, j);
                assert(crate::helpers::eff_first(s, a, i));
                assert(crate::helpers::eff_last(s, b, j));
            }
        }
        r
    }
}

// endregion

// region field names

/// The quoted keys a documents row presents, scanning left to right: each
/// match is a quote, a word, a quote and a colon; scanning resumes past the
/// match.
pub open spec fn field_names_scan(s: Seq<char>, i: int) -> Seq<Seq<char>>
    decreases s.len() - i,
{
    if i < 0 || i >= s.len() {
        Seq::empty()
    } else if s[i] == '"' {
        let l = run_len(s, i + 1, |c: char| is_word_char(c));
        if l >= 1 && i + 2 + l < s.len() && s[i + 1 + l] == '"' && s[i + 2 + l] == ':' {
            seq![s.subrange(i + 1, i + 1 + l)] + field_names_scan(s, i + 3 + l)
        } else {
            field_names_scan(s, i + 1)
        }
    } else {
        field_names_scan(s, i + 1)
    }
}

/// The natural field names of a documents row: its quoted keys, without
/// those that start with an underscore.
pub open spec fn kept_names(row: Seq<char>) -> Seq<Seq<char>> {
    field_names_scan(row, 0).filter(|n: Seq<char>| n.len() == 0 || n[0] != '_')
}

/// The views of a vector of strings.
pub open spec fn str_views(v: Seq<String>) -> Seq<Seq<char>> {
    v.map_values(|s: String| s@)
}

fn scan_names(row: &Vec<char>) -> (r: Vec<String>)
    ensures
        str_views(r@) == field_names_scan(row@, 0),
{
    let mut out: Vec<String> = Vec::new();
    let mut i: usize = 0;
    let n = row.len();
    proof {
        assert(str_views(out@) + field_names_scan(row@, 0) =~= field_names_scan(row@, 0));
    }
    while i < n
        invariant
            n == row@.len(),
            i <= n,
            str_views(out@) + field_names_scan(row@, i as int) == field_names_scan(row@, 0),
        decreases n - i,
    {
        let ghost before = str_views(out@);
        if row[i] == '"' {
            let l = crate::args::scan_word_run(row, i + 1);
            if l >= 1 && n - i >= 3 && l < n - i - 2 {
                let q = row[i + 1 + l];
                let c = row[i + 2 + l];
                if q == '"' && c == ':' {
                    let name = subvec(row, i + 1, i + 1 + l);
                    proof {
                        assert(name@ =~= row@.subrange(i + 1, i + 1 + l));
                    }
                    out.push(from_chars(&name));
                    proof {
                        assert(str_views(out@) =~= before + seq![row@.subrange(i + 1, i + 1 + l)]);
                        assert(str_views(out@) + field_names_scan(row@, i + 3 + l) =~= before + (
                        seq![row@.subrange(i + 1, i + 1 + l)] + field_names_scan(
                            row@,
                            i + 3 + l,
                        )));
                    }
                    i = i + 3 + l;
                    continue ;
                }
            }
            proof {
                assert(field_names_scan(row@, i as int) == field_names_scan(row@, i + 1));
            }
            i = i + 1;
        } else {
            proof {
                assert(field_names_scan(row@, i as int) == field_names_scan(row@, i + 1));
            }
            i = i + 1;
        }
    }
    proof {
        assert(field_names_scan(row@, n as int) =~= Seq::<Seq<char>>::empty());
        assert(str_views(out@) + Seq::<Seq<char>>::empty() =~= str_views(out@));
    }
    out
}

fn keep_natural(names: Vec<String>) -> (r: Vec<String>)
    ensures
        str_views(r@) == str_views(names@).filter(|n: Seq<char>| n.len() == 0 || n[0] != '_'),
{
    let mut out: Vec<String> = Vec::new();
    let mut i: usize = 0;
    proof {
        reveal(Seq::filter);
    }
    while i < names.len()
        invariant
            i <= names@.len(),
            str_views(out@) == str_views(names@.subrange(0, i as int)).filter(
                |n: Seq<char>| n.len() == 0 || n[0] != '_',
            ),
        decreases names@.len() - i,
    {
        let name = &names[i];
        let keep = if name.unicode_len() == 0 {
            true
        } else {
            name.as_str().get_char(0) != '_'
        };
        proof {
            reveal(Seq::filter);
            let sub1 = str_views(names@.subrange(0, i + 1 as int));
            assert(sub1.drop_last() =~= str_views(names@.subrange(0, i as int)));
            assert(sub1.last() == names@[i as int]@);
        }
        let ghost before = str_views(out@);
        if keep {
            out.push(name.clone());
            proof {
                assert(str_views(out@) =~= before.push(names@[i as int]@));
            }
        }
        i += 1;
    }
    proof {
        assert(names@.subrange(0, names@.len() as int) =~= names@);
        assert(str_views(names@.subrange(0, names@.len() as int)) =~= str_views(names@));
    }
    out
}

impl SolrCore {
    /// The natural field names of the first document of a response, when the
    /// response carries a documents array.
    pub fn parse_field_names(json: &str) -> (r: Option<Vec<String>>)
        ensures
            match docs_row_of(json@) {
                Some(row) => r is Some && str_views(r->0@) == kept_names(row),
                None => r is None,
            },
    {
        let row = match Self::parse_docs_from_query(json) {
            Some(row) => row,
            None => {
                return None;
            },
        };
        let rowv = to_chars(row.as_str());
        let names = scan_names(&rowv);
        Some(keep_natural(names))
    }
}

// endregion

// region the probed schema

/// What a probe response denotes for a run: the reported count and the field
/// list (the configured selection when one was given, else the natural
/// names); nothing when the count is missing or zero, too large to hold, or
/// no field can be named.
pub open spec fn core_schema_of(select: Seq<String>, s: Seq<char>) -> Option<(nat, Seq<Seq<char>>)> {
    match num_found_of(s) {
        None => None,
        Some(v) => {
            if v == 0 || v > u64::MAX {
                None
            } else if select.len() > 0 {
                Some((v, str_views(select)))
            } else {
                match docs_row_of(s) {
                    None => None,
                    Some(row) => {
                        if kept_names(row).len() == 0 {
                            None
                        } else {
                            Some((v, kept_names(row)))
                        }
                    },
                }
            }
        },
    }
}

impl SolrCore {
    /// Reads one probe response into a schema snapshot, or says why it names
    /// none: a missing or unusable count, an empty core, or no fields.
    pub fn parse_core_schema(gets: &Backup, json: &str) -> (r: Result<SolrCore, Failed>)
        ensures
            match core_schema_of(gets.select@, json@) {
                Some(sc) => r is Ok && r->Ok_0.num_found == sc.0 && str_views(r->Ok_0.fields@)
                    == sc.1,
                None => r is Err,
            },
    {
        let total_docs = match Self::parse_num_found(json) {
            Ok(v) => v,
            Err(e) => {
                return Err(e);
            },
        };
        if total_docs < 1 {
            let m1 = append("Solr Core '", gets.options.core.as_str());
            return Err(Failed::from(append(m1.as_str(), "' is empty!")));
        }
        let core_fields: Vec<String> = if gets.select.len() == 0 {
            match Self::parse_field_names(json) {
                None => {
                    let m1 = append("Missing fields to parse in Solr Core '", gets.options.core.as_str());
                    return Err(Failed::from(append(m1.as_str(), "'!")));
                },
                Some(fields) => {
                    if fields.len() == 0 {
                        let m1 = append("Missing fields to parse in Solr Core '", gets.options.core.as_str());
                        return Err(Failed::from(append(m1.as_str(), "'!")));
                    }
                    fields
                },
            }
        } else {
            let mut copy: Vec<String> = Vec::new();
            let mut i: usize = 0;
            while i < gets.select.len()
                invariant
                    i <= gets.select@.len(),
                    str_views(copy@) == str_views(gets.select@.subrange(0, i as int)),
                decreases gets.select@.len() - i,
            {
                let ghost before = copy@;
                copy.push(gets.select[i].clone());
                proof {
                    let sub1 = gets.select@.subrange(0, i + 1 as int);
                    assert(copy@ == before.push(gets.select@[i as int]));
                    assert(str_views(before).len() == before.len());
                    assert(str_views(gets.select@.subrange(0, i as int)).len() == i);
                    assert(copy@.len() == i + 1);
                    assert(sub1.len() == i + 1);
                    assert forall|k: int|
                        0 <= k < copy@.len() implies str_views(copy@)[k] == #[trigger] str_views(
                        sub1,
                    )[k] by {
                        assert(str_views(copy@)[k] == copy@[k]@);
                        assert(str_views(sub1)[k] == sub1[k]@);
                        assert(sub1[k] == gets.select@[k]);
                        if k < i {
                            assert(copy@[k] == before[k]);
                            assert(str_views(before)[k] == before[k]@);
                            assert(str_views(gets.select@.subrange(0, i as int))[k]
                                == gets.select@.subrange(0, i as int)[k]@);
                            assert(str_views(before)[k] == str_views(
                                gets.select@.subrange(0, i as int),
                            )[k]);
                        } else {
                            assert(copy@[k] == gets.select@[i as int]);
                        }
                    }
                    assert(str_views(copy@) =~= str_views(sub1));
                }
                i += 1;
            }
            proof {
                assert(gets.select@.subrange(0, gets.select@.len() as int) =~= gets.select@);
            }
            copy
        };
        proof {
            if gets.select@.len() == 0 {
                if docs_row_of(json@) is Some {
                    assert(str_views(core_fields@) == kept_names(docs_row_of(json@)->0));
                }
            }
        }
        Ok(SolrCore { num_found: total_docs, fields: core_fields })
    }

    /// Keeps the higher of two probe counts: the shard workaround retains
    /// the high-water mark across repeated probes.
    pub fn merge_probe(best: SolrCore, next: SolrCore) -> (r: SolrCore)
        ensures
            next.num_found > best.num_found ==> r == next,
            next.num_found <= best.num_found ==> r == best,
    {
        if next.num_found > best.num_found {
            next
        } else {
            best
        }
    }

    /// How many probes the shard workaround issues.
    pub fn probe_rounds(workaround_shards: u64) -> (r: u64)
        requires
            workaround_shards <= 3_689_348_814_741_910_322,
        ensures
            r == workaround_shards * 5 + 1,
    {
        workaround_shards * 5 + 1
    }
}

/// Checks what the probes found against the run's skip: an empty core and a
/// skip at or past the count each fail fast.
pub fn check_core_counts(core: &str, num_found: u64, skip: u64) -> (r: Result<(), Failed>)
    ensures
        num_found == 0 ==> r is Err && r->Err_0.details@ == "Solr Core '"@ + core@
            + "' is empty!"@,
        0 < num_found <= skip ==> r is Err && r->Err_0.details@ == "Requested "@ + crate::helpers::dec_str(
            skip as nat,
        ) + " in --skip but found "@ + crate::helpers::dec_str(num_found as nat)
            + " docs with the query."@,
        num_found > skip ==> r is Ok,
{
    if num_found == 0 {
        let m1 = append("Solr Core '", core);
        let m = append(m1.as_str(), "' is empty!");
        proof {
            assert(m@ =~= "Solr Core '"@ + core@ + "' is empty!"@);
        }
        Err(Failed::from(m))
    } else if num_found <= skip {
        let m1 = append("Requested ", u64_to_string(skip).as_str());
        let m2 = append(m1.as_str(), " in --skip but found ");
        let m3 = append(m2.as_str(), u64_to_string(num_found).as_str());
        let m = append(m3.as_str(), " docs with the query.");
        proof {
            assert(m@ =~= "Requested "@ + crate::helpers::dec_str(skip as nat)
                + " in --skip but found "@ + crate::helpers::dec_str(num_found as nat)
                + " docs with the query."@);
        }
        Err(Failed::from(m))
    } else {
        Ok(())
    }
}

// endregion

} // verus!
