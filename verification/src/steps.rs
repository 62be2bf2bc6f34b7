//! The planners: how one large query becomes a finite sequence of bounded
//! requests, over range or time slices and pagination windows.

use crate::args::{extra_param_spec, Backup};
use crate::ceil_div;
use crate::datetime::{parse_date_time, parsed_date_time, DateTime};
use crate::fails::Failed;
use crate::helpers::{
    all_digits, dec_str, digits_val, iso_tail, replaced, solr_query_spec, with_suffix_spec,
};
use crate::helpers::{append, parse_u64, replace_solr_date, solr_query, u64_to_string, with_suffix};
use crate::models::{sort_field_text, IterateMode, SliceItem, SolrCore, SortField, Step};
use vstd::arithmetic::div_mod::{
    lemma_div_plus_one, lemma_fundamental_div_mod_converse_div,
};
use vstd::arithmetic::mul::lemma_mul_is_distributive_add_other_way;
use vstd::prelude::*;

verus! {

// region page planner

/// The pagination plan over one slice-bound query: offsets from `curr` up to
/// `limit`, `num_docs` rows at a time.
pub struct Requests {
    pub curr: u64,
    pub limit: u64,
    pub num_docs: u64,
    pub url: String,
}

/// How many paginated requests cover offsets `curr..limit` with `num_docs`
/// rows each.
pub open spec fn steps_count(curr: int, limit: int, num_docs: int) -> int {
    if curr < limit {
        ceil_div(limit - curr, num_docs)
    } else {
        0
    }
}

/// The URL of one paginated request: the slice-bound query with its window.
pub open spec fn step_url_spec(base: Seq<char>, start: int, rows: int) -> Seq<char> {
    base + "&start="@ + dec_str(start as nat) + "&rows="@ + dec_str(rows as nat)
}

/// The row count of the request at `off`: a full window, or what is left.
pub open spec fn rows_at(limit: int, num_docs: int, off: int) -> int {
    if limit - off < num_docs {
        limit - off
    } else {
        num_docs
    }
}

/// Splitting one request off the front of a covering plan leaves a plan for
/// the rest.
proof fn lemma_steps_count_step(curr: int, limit: int, num_docs: int)
    requires
        num_docs >= 1,
        curr < limit,
    ensures
        steps_count(curr, limit, num_docs) == 1 + steps_count(curr + num_docs, limit, num_docs),
{
    let a = limit - curr;
    lemma_div_plus_one(a - 1, num_docs);
    if a <= num_docs {
        lemma_fundamental_div_mod_converse_div(a - 1, num_docs, 0, a - 1);
    }
}

impl Requests {
    /// How many requests this plan will emit.
    pub fn len(&self) -> (r: u64)
        requires
            self.num_docs >= 1,
        ensures
            r == steps_count(self.curr as int, self.limit as int, self.num_docs as int),
    {
        crate::strides_to_cover(self.curr, self.limit, self.num_docs)
    }

    /// The full pagination plan. Offsets start at `curr` and advance by
    /// `num_docs`; the last request asks only for the rows that remain.
    pub fn steps(&self) -> (r: Vec<Step>)
        requires
            self.num_docs >= 1,
        ensures
            r@.len() == steps_count(self.curr as int, self.limit as int, self.num_docs as int),
            forall|i: int|
                0 <= i < r@.len() ==> (#[trigger] r@[i]).curr == self.curr + i * self.num_docs
                    && r@[i].url@ == step_url_spec(
                    self.url@,
                    self.curr + i * self.num_docs,
                    rows_at(self.limit as int, self.num_docs as int, self.curr + i * self.num_docs),
                ),
    {
        let mut out: Vec<Step> = Vec::new();
        let mut curr = self.curr;
        let nd = self.num_docs;
        let ghost total = steps_count(self.curr as int, self.limit as int, self.num_docs as int);
        while curr < self.limit
            invariant
                self.num_docs == nd,
                nd >= 1,
                out@.len() <= total,
                curr < self.limit ==> curr as int == self.curr + out@.len() * nd,
                total == out@.len() + steps_count(curr as int, self.limit as int, nd as int),
                forall|i: int|
                    0 <= i < out@.len() ==> (#[trigger] out@[i]).curr == self.curr + i * nd
                        && out@[i].url@ == step_url_spec(
                        self.url@,
                        self.curr + i * nd,
                        rows_at(self.limit as int, nd as int, self.curr + i * nd),
                    ),
            decreases self.limit - curr,
        {
            let remaining = self.limit - curr;
            let rows = if nd < remaining {
                nd
            } else {
                remaining
            };
            let head = append(self.url.as_str(), "&start=");
            let head2 = append(head.as_str(), u64_to_string(curr).as_str());
            let head3 = append(head2.as_str(), "&rows=");
            let url = append(head3.as_str(), u64_to_string(rows).as_str());
            proof {
                lemma_steps_count_step(curr as int, self.limit as int, nd as int);
                lemma_mul_is_distributive_add_other_way(nd as int, out@.len() as int, 1);
            }
            out.push(Step { curr, url });
            if nd < remaining {
                curr = curr + nd;
            } else {
                curr = self.limit;
            }
        }
        out
    }
}

// endregion

// region slice substitution

/// A query with both range bounds substituted in, each completed to a full
/// ISO timestamp where it is a date.
pub open spec fn slice_bound_query(q: Seq<char>, begin: Seq<char>, end: Seq<char>) -> Seq<char> {
    let step1 = replaced(q, "{begin}"@, begin + iso_tail(begin.len() as int));
    replaced(step1, "{end}"@, end + iso_tail(end.len() as int))
}

/// Substitutes slice bounds for the `{begin}` and `{end}` variables of a
/// query.
pub fn replace_solr_vars(query: &str, begin: &str, end: &str) -> (r: String)
    ensures
        r@ == slice_bound_query(query@, begin@, end@),
{
    let query2 = replace_solr_date(query, "{begin}", begin);
    replace_solr_date(query2.as_str(), "{end}", end)
}

impl SliceItem {
    /// Binds a step's URL to this slice; a slice with no bounds leaves the
    /// step as it is.
    pub fn filter(&self, step: Step) -> (r: Step)
        ensures
            r.curr == step.curr,
            self.begin@.len() == 0 ==> r.url@ == step.url@,
            self.begin@.len() > 0 ==> r.url@ == slice_bound_query(
                step.url@,
                self.begin@,
                self.end@,
            ),
    {
        if self.begin.as_str().is_empty() {
            step
        } else {
            let query = replace_solr_vars(step.url.as_str(), self.begin.as_str(), self.end.as_str());
            Step { url: query, curr: step.curr }
        }
    }
}

// endregion

// region slice planner

/// The slicing plan as configured: the bound texts, the stride, and the mode
/// that says how to read them.
pub struct Slices<T> {
    pub curr: T,
    pub end: T,
    pub increment: u64,
    pub mode: IterateMode,
}

/// What a numeric bound text denotes.
pub open spec fn parsed_num(s: Seq<char>) -> Option<u64> {
    if s.len() >= 1 && all_digits(s) && digits_val(s) <= u64::MAX {
        Some(digits_val(s) as u64)
    } else {
        None
    }
}

impl Slices<u64> {
    /// How many slices this plan will emit.
    pub fn len(&self) -> (r: u64)
        requires
            self.increment >= 1,
        ensures
            r == steps_count(self.curr as int, self.end as int, self.increment as int),
    {
        crate::strides_to_cover(self.curr, self.end, self.increment)
    }

    /// The numeric slices: `increment` numbers each, starting at `curr`,
    /// until `end` is passed; the bounds are rendered in decimal.
    pub fn slices(&self) -> (r: Vec<SliceItem>)
        requires
            self.increment >= 1,
            self.end + self.increment <= u64::MAX,
        ensures
            r@.len() == steps_count(self.curr as int, self.end as int, self.increment as int),
            forall|i: int|
                0 <= i < r@.len() ==> (#[trigger] r@[i]).begin@ == dec_str(
                    (self.curr + i * self.increment) as nat,
                ) && r@[i].end@ == dec_str(
                    (self.curr + i * self.increment + self.increment - 1) as nat,
                ),
    {
        let mut out: Vec<SliceItem> = Vec::new();
        let mut curr = self.curr;
        let inc = self.increment;
        let ghost total = steps_count(self.curr as int, self.end as int, inc as int);
        while curr < self.end
            invariant
                self.increment == inc,
                inc >= 1,
                self.end + inc <= u64::MAX,
                out@.len() <= total,
                curr < self.end ==> curr as int == self.curr + out@.len() * inc,
                total == out@.len() + steps_count(curr as int, self.end as int, inc as int),
                forall|i: int|
                    0 <= i < out@.len() ==> (#[trigger] out@[i]).begin@ == dec_str(
                        (self.curr + i * inc) as nat,
                    ) && out@[i].end@ == dec_str((self.curr + i * inc + inc - 1) as nat),
            decreases self.end - curr,
        {
            let next = curr + inc;
            let last = next - 1;
            let begin_s = u64_to_string(curr);
            let end_s = u64_to_string(last);
            proof {
                lemma_steps_count_step(curr as int, self.end as int, inc as int);
                lemma_mul_is_distributive_add_other_way(inc as int, out@.len() as int, 1);
            }
            out.push(SliceItem { begin: begin_s, end: end_s });
            if next < self.end {
                curr = next;
            } else {
                curr = self.end;
            }
        }
        out
    }
}

/// The seconds one unit of a temporal mode spans; a year's worth for the
/// modes that are not temporal.
pub open spec fn unit_secs(mode: IterateMode) -> int {
    match mode {
        IterateMode::Minute => 60,
        IterateMode::Hour => 3600,
        IterateMode::Day => 86400,
        _ => 31536000,
    }
}

fn unit_secs_of(mode: IterateMode) -> (r: u64)
    ensures
        r == unit_secs(mode),
{
    match mode {
        IterateMode::Minute => 60,
        IterateMode::Hour => 3600,
        IterateMode::Day => 86400,
        _ => 31536000,
    }
}

/// How many slices a temporal plan will emit: strides of
/// `increment * unit_secs` seconds covering the span.
pub open spec fn temporal_count(s: Slices<DateTime>) -> int {
    steps_count(s.curr.dt_secs(), s.end.dt_secs(), s.increment * unit_secs(s.mode))
}

/// The bounds of the temporal slice at index `i`: it begins `i` strides
/// after the plan's start and ends one second before the next stride, or at
/// the plan's end where that comes first.
pub open spec fn temporal_slice_at(s: Slices<DateTime>, item: SliceItem, i: int) -> bool {
    let ss = s.increment * unit_secs(s.mode);
    exists|b: DateTime, e: DateTime|
        #![trigger crate::datetime::solr_time_text(b), crate::datetime::solr_time_text(e)]
        b.wf() && e.wf() && b.dt_secs() == s.curr.dt_secs() + i * ss && e.dt_secs() == (if b.dt_secs()
            + ss - 1 < s.end.dt_secs() {
            b.dt_secs() + ss - 1
        } else {
            s.end.dt_secs()
        }) && item.begin@ == crate::datetime::solr_time_text(b) && item.end@
            == crate::datetime::solr_time_text(e)
}

impl Slices<DateTime> {
    /// How many slices this plan will emit.
    pub fn len(&self) -> (r: u64)
        requires
            self.increment >= 1,
            self.curr.wf(),
            self.end.wf(),
            self.curr.year <= 9999,
            self.end.year <= 9999,
        ensures
            r == temporal_count(*self),
    {
        let cs = crate::datetime::secs_of(&self.curr);
        let es = crate::datetime::secs_of(&self.end);
        let unit = unit_secs_of(self.mode);
        let ghost ss = self.increment * unit_secs(self.mode);
        proof {
            vstd::arithmetic::mul::lemma_mul_strictly_positive(self.increment as int, unit as int);
            vstd::arithmetic::mul::lemma_mul_upper_bound(
                self.increment as int,
                u64::MAX as int,
                unit as int,
                31536000,
            );
        }
        if cs >= es {
            return 0;
        }
        let step128: u128 = (self.increment as u128) * (unit as u128);
        let diff = es - cs;
        let q128: u128 = ((diff - 1) as u128) / step128;
        proof {
            lemma_div_plus_one((diff - 1) as int, ss);
            vstd::arithmetic::div_mod::lemma_div_nonincreasing((diff - 1) as int, ss);
        }
        (q128 as u64) + 1
    }

    /// The temporal slices, each rendered as a pair of full ISO timestamps.
    pub fn slices(&self) -> (r: Vec<SliceItem>)
        requires
            self.increment >= 1,
            self.curr.wf(),
            self.end.wf(),
            self.curr.year <= 9999,
            self.end.year <= 9999,
        ensures
            r@.len() == temporal_count(*self),
            forall|i: int| 0 <= i < r@.len() ==> temporal_slice_at(*self, #[trigger] r@[i], i),
    {
        let mut out: Vec<SliceItem> = Vec::new();
        let mut cur = self.curr;
        let mut cs = crate::datetime::secs_of(&self.curr);
        let es = crate::datetime::secs_of(&self.end);
        let unit = unit_secs_of(self.mode);
        proof {
            vstd::arithmetic::mul::lemma_mul_upper_bound(
                self.increment as int,
                u64::MAX as int,
                unit as int,
                31536000,
            );
        }
        let step128: u128 = (self.increment as u128) * (unit as u128);
        let ghost ss = self.increment * unit_secs(self.mode);
        let ghost total = temporal_count(*self);
        proof {
            vstd::arithmetic::mul::lemma_mul_strictly_positive(self.increment as int, unit as int);
            crate::datetime::lemma_four_digit_secs(self.end);
            crate::datetime::lemma_four_digit_secs(self.curr);
        }
        while cs < es
            invariant
                ss == self.increment * unit_secs(self.mode),
                ss >= 1,
                step128 == ss,
                self.curr.wf(),
                self.end.wf(),
                self.curr.year <= 9999,
                self.end.year <= 9999,
                es == self.end.dt_secs(),
                es < 316_400_000_000,
                cur.wf(),
                cur.year <= 10200,
                cs < es ==> cs == cur.dt_secs(),
                out@.len() <= total,
                cs < es ==> cs as int == self.curr.dt_secs() + (out@.len() as int) * ss,
                total == out@.len() + steps_count(cs as int, es as int, ss),
                forall|i: int| 0 <= i < out@.len() ==> temporal_slice_at(*self, #[trigger] out@[i], i),
            decreases es - cs,
        {
            let remaining = es - cs;
            let begin_s = crate::datetime::format_solr_time(&cur);
            proof {
                lemma_steps_count_step(cs as int, es as int, ss);
                lemma_mul_is_distributive_add_other_way(ss, out@.len() as int, 1);
            }
            let ghost i0 = out@.len() as int;
            if step128 > (remaining as u128) {
                let item = SliceItem { begin: begin_s, end: crate::datetime::format_solr_time(&self.end) };
                proof {
                    assert(cur.wf());
                    assert(self.end.wf());
                    assert(cur.dt_secs() == self.curr.dt_secs() + i0 * ss);
                    assert(!(cur.dt_secs() + ss - 1 < self.end.dt_secs()));
                    assert(item.begin@ == crate::datetime::solr_time_text(cur));
                    assert(item.end@ == crate::datetime::solr_time_text(self.end));
                    assert(temporal_slice_at(*self, item, i0));
                }
                out.push(item);
                cs = es;
            } else {
                let step = step128 as u64;
                let e_dt = crate::datetime::add_seconds(cur, step - 1);
                let item = SliceItem { begin: begin_s, end: crate::datetime::format_solr_time(&e_dt) };
                proof {
                    assert(cur.wf() && e_dt.wf() && cur.dt_secs() == self.curr.dt_secs() + i0 * ss
                        && e_dt.dt_secs() == (if cur.dt_secs() + ss - 1 < self.end.dt_secs() {
                        cur.dt_secs() + ss - 1
                    } else {
                        self.end.dt_secs()
                    }) && item.begin@ == crate::datetime::solr_time_text(cur) && item.end@
                        == crate::datetime::solr_time_text(e_dt));
                    assert(temporal_slice_at(*self, item, i0));
                }
                out.push(item);
                cur = crate::datetime::add_seconds(cur, step);
                cs = cs + step;
            }
        }
        out
    }
}

// endregion

// region mode dispatch

/// How many slices the configured plan denotes: one when unsliced, the
/// covering count of the parsed bounds otherwise; nothing when a bound does
/// not parse.
pub open spec fn slice_estimate(s: Slices<String>) -> Option<int> {
    if s.curr@.len() == 0 || s.mode == IterateMode::Off {
        Some(1int)
    } else if s.mode == IterateMode::Range {
        match (parsed_num(s.curr@), parsed_num(s.end@)) {
            (Some(a), Some(b)) => Some(steps_count(a as int, b as int, s.increment as int)),
            _ => None,
        }
    } else {
        match (parsed_date_time(s.curr@), parsed_date_time(s.end@)) {
            (Some(a), Some(b)) => Some(
                temporal_count(
                    Slices { curr: a, end: b, increment: s.increment, mode: s.mode },
                ),
            ),
            _ => None,
        }
    }
}

impl Slices<String> {
    /// The one-pass plan used when no slicing is configured.
    pub fn get_slice_of(num: u64, incr: u64) -> (r: Slices<u64>)
        ensures
            r.curr == 0,
            r.end == num,
            r.increment == incr,
            r.mode == IterateMode::Range,
    {
        Slices { curr: 0, end: num, mode: IterateMode::Range, increment: incr }
    }

    /// Reads a numeric range bound.
    pub fn parse_between_number(value: &str) -> (r: Result<u64, Failed>)
        ensures
            match parsed_num(value@) {
                Some(x) => r is Ok && r->Ok_0 == x,
                None => r is Err,
            },
    {
        match parse_u64(value) {
            Some(x) => Ok(x),
            None => Err(Failed::from(append("Wrong value for number: ", value))),
        }
    }

    /// Reads a temporal range bound.
    pub fn parse_between_date(value: &str) -> (r: Result<DateTime, Failed>)
        ensures
            match parsed_date_time(value@) {
                Some(dt) => r is Ok && r->Ok_0 == dt && dt.year <= 9999,
                None => r is Err,
            },
    {
        parse_date_time(value)
    }

    /// The numeric plan behind this configuration.
    pub fn get_range_slices(&self) -> (r: Result<Slices<u64>, Failed>)
        ensures
            match (parsed_num(self.curr@), parsed_num(self.end@)) {
                (Some(a), Some(b)) => r is Ok && r->Ok_0.curr == a && r->Ok_0.end == b
                    && r->Ok_0.increment == self.increment && r->Ok_0.mode == IterateMode::Range,
                _ => r is Err,
            },
    {
        let v1 = Self::parse_between_number(self.curr.as_str())?;
        let v2 = Self::parse_between_number(self.end.as_str())?;
        Ok(Slices { curr: v1, end: v2, increment: self.increment, mode: IterateMode::Range })
    }

    /// The temporal plan behind this configuration.
    pub fn get_period_slices(&self) -> (r: Result<Slices<DateTime>, Failed>)
        ensures
            match (parsed_date_time(self.curr@), parsed_date_time(self.end@)) {
                (Some(a), Some(b)) => r is Ok && r->Ok_0.curr == a && r->Ok_0.end == b
                    && r->Ok_0.increment == self.increment && r->Ok_0.mode == self.mode
                    && a.year <= 9999 && b.year <= 9999,
                _ => r is Err,
            },
    {
        let v1 = Self::parse_between_date(self.curr.as_str())?;
        let v2 = Self::parse_between_date(self.end.as_str())?;
        Ok(Slices { curr: v1, end: v2, increment: self.increment, mode: self.mode })
    }

    /// How many slices the plan will emit, without emitting them: the same
    /// count `get_iterator` is proved to produce, so a progress estimate
    /// never drifts from the plan.
    pub fn estimate_steps(&self) -> (r: Result<u64, Failed>)
        requires
            self.increment >= 1,
        ensures
            match slice_estimate(*self) {
                Some(n) => r is Ok && r->Ok_0 == n,
                None => r is Err,
            },
    {
        if self.curr.as_str().is_empty() {
            return Ok(1);
        }
        match self.mode {
            IterateMode::Off => Ok(1),
            IterateMode::Range => {
                let plan = self.get_range_slices()?;
                Ok(plan.len())
            },
            _ => {
                let plan = self.get_period_slices()?;
                Ok(plan.len())
            },
        }
    }

    /// All slices of the plan, in order. An unsliced plan yields one slice
    /// over the single stride `0`; a stride too wide for the numeric bounds
    /// is refused.
    pub fn get_iterator(&self) -> (r: Result<Vec<SliceItem>, Failed>)
        requires
            self.increment >= 1,
        ensures
            ({
                let unsliced = self.curr@.len() == 0 || self.mode == IterateMode::Off;
                &&& unsliced ==> r is Ok && r->Ok_0@.len() == 1 && r->Ok_0@[0].begin@ == dec_str(0)
                    && r->Ok_0@[0].end@ == dec_str(0)
                &&& !unsliced && self.mode == IterateMode::Range ==> (match (
                    parsed_num(self.curr@),
                    parsed_num(self.end@),
                ) {
                    (Some(a), Some(b)) => {
                        if b + self.increment <= u64::MAX {
                            &&& r is Ok
                            &&& r->Ok_0@.len() == steps_count(
                                a as int,
                                b as int,
                                self.increment as int,
                            )
                            &&& forall|i: int|
                                0 <= i < r->Ok_0@.len() ==> (#[trigger] r->Ok_0@[i]).begin@
                                    == dec_str((a + i * self.increment) as nat)
                                    && r->Ok_0@[i].end@ == dec_str(
                                    (a + i * self.increment + self.increment - 1) as nat,
                                )
                        } else {
                            r is Err
                        }
                    },
                    _ => r is Err,
                })
                &&& !unsliced && self.mode != IterateMode::Range ==> (match (
                    parsed_date_time(self.curr@),
                    parsed_date_time(self.end@),
                ) {
                    (Some(a), Some(b)) => {
                        let plan = Slices {
                            curr: a,
                            end: b,
                            increment: self.increment,
                            mode: self.mode,
                        };
                        &&& r is Ok
                        &&& r->Ok_0@.len() == temporal_count(plan)
                        &&& forall|i: int|
                            0 <= i < r->Ok_0@.len() ==> temporal_slice_at(
                                plan,
                                #[trigger] r->Ok_0@[i],
                                i,
                            )
                    },
                    _ => r is Err,
                })
            }),
    {
        if self.curr.as_str().is_empty() {
            let one = Self::get_slice_of(1, 1);
            return Ok(one.slices());
        }
        match self.mode {
            IterateMode::Off => {
                let one = Self::get_slice_of(1, 1);
                Ok(one.slices())
            },
            IterateMode::Range => {
                let plan = self.get_range_slices()?;
                if plan.end > u64::MAX - plan.increment {
                    return Err(Failed::new("Range stride does not fit the numeric bounds"));
                }
                Ok(plan.slices())
            },
            _ => {
                let plan = self.get_period_slices()?;
                Ok(plan.slices())
            },
        }
    }
}

// endregion

// region backup requests

/// The `fl` parameter of the query: the selected fields when any were
/// configured, else the probed core fields; nothing when both are empty.
pub open spec fn query_fields_spec(sel: Seq<String>, core_fields: Seq<String>) -> Seq<char> {
    let fields = if sel.len() > 0 {
        sel
    } else {
        core_fields
    };
    if fields.len() == 0 {
        Seq::empty()
    } else {
        "&fl="@ + joined_names(fields)
    }
}

/// Field names joined by commas.
pub open spec fn joined_names(fs: Seq<String>) -> Seq<char>
    decreases fs.len(),
{
    if fs.len() == 0 {
        Seq::empty()
    } else if fs.len() == 1 {
        fs[0]@
    } else {
        joined_names(fs.drop_last()) + ","@ + fs.last()@
    }
}

/// Sort fields joined by commas.
pub open spec fn joined_fields(fs: Seq<SortField>) -> Seq<char>
    decreases fs.len(),
{
    if fs.len() == 0 {
        Seq::empty()
    } else if fs.len() == 1 {
        sort_field_text(fs[0])
    } else {
        joined_fields(fs.drop_last()) + ","@ + sort_field_text(fs.last())
    }
}

fn join_names(fs: &Vec<String>) -> (r: String)
    ensures
        r@ == joined_names(fs@),
{
    let mut out = String::new();
    let mut i: usize = 0;
    while i < fs.len()
        invariant
            i <= fs@.len(),
            out@ == joined_names(fs@.subrange(0, i as int)),
        decreases fs@.len() - i,
    {
        if i > 0 {
            out.append(",");
        }
        out.append(fs[i].as_str());
        proof {
            let sub1 = fs@.subrange(0, i + 1 as int);
            assert(sub1.drop_last() =~= fs@.subrange(0, i as int));
            if i == 0 {
                assert(out@ =~= joined_names(sub1));
            } else {
                assert(out@ =~= joined_names(sub1));
            }
        }
        i += 1;
    }
    proof {
        assert(fs@.subrange(0, fs@.len() as int) =~= fs@);
    }
    out
}

fn join_fields(fs: &Vec<SortField>) -> (r: String)
    ensures
        r@ == joined_fields(fs@),
{
    let mut out = String::new();
    let mut i: usize = 0;
    while i < fs.len()
        invariant
            i <= fs@.len(),
            out@ == joined_fields(fs@.subrange(0, i as int)),
        decreases fs@.len() - i,
    {
        if i > 0 {
            out.append(",");
        }
        let text = fs[i].as_text();
        out.append(text.as_str());
        proof {
            let sub1 = fs@.subrange(0, i + 1 as int);
            assert(sub1.drop_last() =~= fs@.subrange(0, i as int));
            assert(out@ =~= joined_fields(sub1));
        }
        i += 1;
    }
    proof {
        assert(fs@.subrange(0, fs@.len() as int) =~= fs@);
    }
    out
}

/// The range the backup iterates over, as configured; empty bounds when no
/// range (or a malformed one) was given.
pub open spec fn between_spec(b: Backup) -> (Seq<char>, Seq<char>) {
    if b.iterate_between@.len() < 2 {
        (Seq::empty(), Seq::empty())
    } else {
        (b.iterate_between@[0]@, b.iterate_between@[1]@)
    }
}

/// The user query with the slice variables bound to the configured range;
/// untouched when raw mode asks for the template itself or no range is set.
pub open spec fn replace_vars_spec(b: Backup, q: Seq<char>, raw: bool) -> Seq<char> {
    if raw || b.iterate_between@.len() < 2 {
        q
    } else {
        slice_bound_query(q, between_spec(b).0, between_spec(b).1)
    }
}

/// The select-handler URL of a backup: base, core, the fixed select path,
/// the encoded `q` and `fq` filters, the sort order, the extra parameter,
/// and the selected fields.
pub open spec fn query_url_spec(b: Backup, selected: Seq<char>, raw: bool) -> Seq<char> {
    let qparam = match b.query {
        Some(q) => q@,
        None => "*:*"@,
    };
    let filterq = solr_query_spec(replace_vars_spec(b, qparam, raw));
    let fqparam = match b.fq {
        Some(q) => q@,
        None => "*:*"@,
    };
    let filterfq = solr_query_spec(fqparam);
    let sort = if b.order@.len() == 0 {
        Seq::<char>::empty()
    } else {
        "&sort="@ + joined_fields(b.order@)
    };
    with_suffix_spec(b.options.url@, "/"@) + b.options.core@
        + "/select?wt=json&indent=off&omitHeader=true"@ + "&q="@ + filterq + "&fq="@ + filterfq
        + sort + extra_param_spec(b.transfer.params, "&"@) + selected
}

/// How many documents the run may retrieve: the core's count, capped by the
/// configured limit.
pub open spec fn docs_to_retrieve_spec(b: Backup, num_found: int) -> int {
    let cap = match b.limit {
        Some(l) => l as int,
        None => u64::MAX as int,
    };
    if num_found < cap {
        num_found
    } else {
        cap
    }
}

/// Relies on chrono's `Utc::now` and `format`: the current UTC time rendered
/// as `yyyymmdd_HHMM`; nothing is assumed of the value.
#[verifier::external_body]
fn now_stamp() -> String {
    let now: chrono::DateTime<chrono::Utc> = chrono::Utc::now();
    now.format("%Y%m%d_%H%M").to_string()
}

impl Backup {
    /// The archive naming pattern of this run: the configured prefix (or the
    /// core name and the time of day), the document count, and a `{}` slot
    /// for the first offset of each archive.
    pub fn get_archive_pattern(&self, num_found: u64) -> (r: String)
        ensures
            match self.zip_prefix {
                Some(p) => r@ == p@ + "_docs_"@ + dec_str(num_found as nat) + "_seq_{}.zip"@,
                None => exists|ts: Seq<char>|
                    r@ == self.options.core@ + "_at_"@ + ts + "_docs_"@ + dec_str(num_found as nat)
                        + "_seq_{}.zip"@,
            },
    {
        match &self.zip_prefix {
            Some(text) => {
                let p1 = append(text.as_str(), "_docs_");
                let p2 = append(p1.as_str(), u64_to_string(num_found).as_str());
                let r = append(p2.as_str(), "_seq_{}.zip");
                proof {
                    assert(r@ =~= self.zip_prefix->0@ + "_docs_"@ + dec_str(num_found as nat)
                        + "_seq_{}.zip"@);
                }
                r
            },
            None => {
                let stamp = now_stamp();
                let head = append(self.options.core.as_str(), "_at_");
                let prefix = append(head.as_str(), stamp.as_str());
                let p1 = append(prefix.as_str(), "_docs_");
                let p2 = append(p1.as_str(), u64_to_string(num_found).as_str());
                let r = append(p2.as_str(), "_seq_{}.zip");
                proof {
                    assert(r@ =~= self.options.core@ + "_at_"@ + stamp@ + "_docs_"@ + dec_str(
                        num_found as nat,
                    ) + "_seq_{}.zip"@);
                }
                r
            },
        }
    }

    /// The cap on documents this run may retrieve.
    pub fn get_docs_to_retrieve(&self, schema: &SolrCore) -> (r: u64)
        ensures
            r == docs_to_retrieve_spec(*self, schema.num_found as int),
    {
        match self.limit {
            Some(l) => {
                if schema.num_found < l {
                    schema.num_found
                } else {
                    l
                }
            },
            None => schema.num_found,
        }
    }

    /// How many documents the whole run is expected to move: the documents
    /// of one pass times the number of slices.
    pub fn estimate_docs_quantity(&self, schema: &SolrCore, slices: &Slices<String>) -> (r: Result<
        u64,
        Failed,
    >)
        requires
            slices.increment >= 1,
            self.skip <= docs_to_retrieve_spec(*self, schema.num_found as int),
        ensures
            match slice_estimate(*slices) {
                Some(n) => {
                    let q = (docs_to_retrieve_spec(*self, schema.num_found as int) - self.skip) * n;
                    if q <= u64::MAX {
                        r is Ok && r->Ok_0 == q
                    } else {
                        r is Err
                    }
                },
                None => r is Err,
            },
    {
        let end_limit = self.get_docs_to_retrieve(schema);
        let num_retrieving = end_limit - self.skip;
        let slice_count = match slices.estimate_steps() {
            Ok(n) => n,
            Err(e) => {
                return Err(e);
            },
        };
        proof {
            vstd::arithmetic::mul::lemma_mul_upper_bound(
                num_retrieving as int,
                u64::MAX as int,
                slice_count as int,
                u64::MAX as int,
            );
            vstd::arithmetic::mul::lemma_mul_nonnegative(
                num_retrieving as int,
                slice_count as int,
            );
        }
        let wide: u128 = (num_retrieving as u128) * (slice_count as u128);
        if wide > 0xffff_ffff_ffff_ffffu128 {
            Err(Failed::new("Too many documents to plan in one run"))
        } else {
            Ok(wide as u64)
        }
    }

    /// The pagination plan of the first slice of this run: the configured
    /// skip applies here and nowhere else.
    pub fn get_steps(&self, schema: &SolrCore) -> (r: Requests)
        ensures
            r.curr == self.skip,
            r.limit == docs_to_retrieve_spec(*self, schema.num_found as int),
            r.num_docs == self.num_docs,
            r.url@ == query_url_spec(
                *self,
                query_fields_spec(self.select@, schema.fields@),
                true,
            ),
    {
        self.get_steps_at(schema, true)
    }

    /// The pagination plan of one slice: offsets start at the configured
    /// skip on the first slice of the run and at zero on every later one.
    pub fn get_steps_at(&self, schema: &SolrCore, first_slice: bool) -> (r: Requests)
        ensures
            r.curr == (if first_slice {
                self.skip
            } else {
                0
            }),
            r.limit == docs_to_retrieve_spec(*self, schema.num_found as int),
            r.num_docs == self.num_docs,
            r.url@ == query_url_spec(
                *self,
                query_fields_spec(self.select@, schema.fields@),
                true,
            ),
    {
        let fl = self.get_query_fields(&schema.fields);
        let query = self.get_query_url(fl.as_str(), true);
        let end_limit = self.get_docs_to_retrieve(schema);
        let curr = if first_slice {
            self.skip
        } else {
            0
        };
        Requests { curr, limit: end_limit, num_docs: self.num_docs, url: query }
    }

    /// The `fl` parameter naming the fields each document is fetched with.
    pub fn get_query_fields(&self, core_fields: &Vec<String>) -> (r: String)
        ensures
            r@ == query_fields_spec(self.select@, core_fields@),
    {
        let fields = if self.select.len() == 0 {
            core_fields
        } else {
            &self.select
        };
        if fields.len() == 0 {
            String::new()
        } else {
            let joined = join_names(fields);
            append("&fl=", joined.as_str())
        }
    }

    /// The probe URL: the raw query asking for a single row at the start.
    pub fn get_query_for_diagnostics(&self) -> (r: String)
        ensures
            r@ == query_url_spec(*self, Seq::<char>::empty(), false) + "&start=0&rows=1"@,
    {
        proof {
            reveal_strlit("");
        }
        let url = self.get_query_url("", false);
        proof {
            assert(url@ =~= query_url_spec(*self, Seq::<char>::empty(), false));
        }
        append(url.as_str(), "&start=0&rows=1")
    }

    /// The query with the slice variables bound, unless raw mode asks for
    /// the template itself.
    pub fn replace_vars(&self, query: &str, raw: bool) -> (r: String)
        ensures
            r@ == replace_vars_spec(*self, query@, raw),
    {
        if raw || self.iterate_between.len() < 2 {
            query.to_owned()
        } else {
            let begin = &self.iterate_between[0];
            let end = &self.iterate_between[1];
            replace_solr_vars(query, begin.as_str(), end.as_str())
        }
    }

    /// The select-handler URL this run queries.
    pub fn get_query_url(&self, selected: &str, raw: bool) -> (r: String)
        ensures
            r@ == query_url_spec(*self, selected@, raw),
    {
        let qparam: String = match &self.query {
            Some(q) => q.clone(),
            None => append("*:*", ""),
        };
        proof {
            reveal_strlit("");
            assert(qparam@ =~= (match self.query {
                Some(q) => q@,
                None => "*:*"@,
            }));
        }
        let qfixed = self.replace_vars(qparam.as_str(), raw);
        let filterq = solr_query(qfixed.as_str());
        let fqparam: String = match &self.fq {
            Some(q) => q.clone(),
            None => append("*:*", ""),
        };
        proof {
            assert(fqparam@ =~= (match self.fq {
                Some(q) => q@,
                None => "*:*"@,
            }));
        }
        let filterfq = solr_query(fqparam.as_str());
        let sort: String = if self.order.len() == 0 {
            String::new()
        } else {
            let joined = join_fields(&self.order);
            append("&sort=", joined.as_str())
        };
        let mut out = with_suffix(self.options.url.as_str(), "/");
        out.append(self.options.core.as_str());
        out.append("/select?wt=json&indent=off&omitHeader=true");
        out.append("&q=");
        out.append(filterq.as_str());
        out.append("&fq=");
        out.append(filterfq.as_str());
        out.append(sort.as_str());
        let extra = self.transfer.get_param("&");
        out.append(extra.as_str());
        out.append(selected);
        proof {
            assert(out@ =~= query_url_spec(*self, selected@, raw));
        }
        out
    }

    /// The slicing plan of this run, as configured.
    pub fn get_slices(&self) -> (r: Slices<String>)
        ensures
            r.curr@ == between_spec(*self).0,
            r.end@ == between_spec(*self).1,
            r.increment == self.iterate_step,
            r.mode == self.iterate_by,
    {
        let (begin, end) = self.get_between();
        Slices { curr: begin, end: end, increment: self.iterate_step, mode: self.iterate_by }
    }

    fn get_between(&self) -> (r: (String, String))
        ensures
            r.0@ == between_spec(*self).0,
            r.1@ == between_spec(*self).1,
    {
        if self.iterate_between.len() < 2 {
            (String::new(), String::new())
        } else {
            (self.iterate_between[0].clone(), self.iterate_between[1].clone())
        }
    }
}

// endregion

// region coverage laws

/// The pagination plan covers every offset of the range exactly once: each
/// offset of `curr..limit` falls inside the window of exactly one planned
/// request (the one whose index is its distance from the start, in whole
/// windows). This is what makes a backup complete: together the requests
/// return each document position once.
pub proof fn lemma_steps_cover(curr: int, limit: int, num_docs: int, off: int)
    requires
        num_docs >= 1,
        curr <= off < limit,
    ensures
        ({
            let i = (off - curr) / num_docs;
            let start = curr + i * num_docs;
            &&& 0 <= i < steps_count(curr, limit, num_docs)
            &&& start <= off < start + rows_at(limit, num_docs, start)
        }),
        forall|j: int|
            0 <= j < steps_count(curr, limit, num_docs) && j != (off - curr) / num_docs ==> !(curr
                + #[trigger] (j * num_docs) <= off < curr + j * num_docs + num_docs),
{
    let i = (off - curr) / num_docs;
    let r = (off - curr) % num_docs;
    vstd::arithmetic::div_mod::lemma_fundamental_div_mod(off - curr, num_docs);
    vstd::arithmetic::div_mod::lemma_remainder_lower(off - curr, num_docs);
    vstd::arithmetic::div_mod::lemma_remainder_upper(off - curr, num_docs);
    vstd::arithmetic::div_mod::lemma_div_pos_is_pos(off - curr, num_docs);
    assert(off - curr == num_docs * i + r);
    assert(curr + i * num_docs == off - r) by {
        vstd::arithmetic::mul::lemma_mul_is_commutative(i, num_docs);
    }
    assert(i < steps_count(curr, limit, num_docs)) by {
        let n = steps_count(curr, limit, num_docs);
        lemma_div_plus_one(limit - curr - 1, num_docs);
        vstd::arithmetic::div_mod::lemma_div_is_ordered(off - curr, limit - curr - 1, num_docs);
    }
    assert forall|j: int|
        0 <= j < steps_count(curr, limit, num_docs) && j != i implies !(curr + #[trigger] (j
        * num_docs) <= off < curr + j * num_docs + num_docs) by {
        if j < i {
            vstd::arithmetic::mul::lemma_mul_inequality(j + 1, i, num_docs);
            assert((j + 1) * num_docs == j * num_docs + num_docs) by {
                lemma_mul_is_distributive_add_other_way(num_docs, j, 1);
            }
            assert(i * num_docs <= off - curr) by {
                vstd::arithmetic::mul::lemma_mul_is_commutative(i, num_docs);
            }
        }
        if j > i {
            vstd::arithmetic::mul::lemma_mul_inequality(i + 1, j, num_docs);
            assert((i + 1) * num_docs == i * num_docs + num_docs) by {
                lemma_mul_is_distributive_add_other_way(num_docs, i, 1);
            }
            assert(off - curr < i * num_docs + num_docs) by {
                vstd::arithmetic::mul::lemma_mul_is_commutative(i, num_docs);
            }
        }
    }
}

/// A limit below the window size yields exactly one request, asking for
/// `limit` rows from the start.
pub proof fn lemma_single_step_plan(limit: int, num_docs: int)
    requires
        0 < limit < num_docs,
    ensures
        steps_count(0, limit, num_docs) == 1,
        rows_at(limit, num_docs, 0) == limit,
{
    lemma_div_plus_one(limit - 1, num_docs);
    vstd::arithmetic::div_mod::lemma_basic_div(limit - 1, num_docs);
}

/// A temporal range that ends at or before it begins plans no slices at all.
pub proof fn lemma_empty_range_plans_nothing(s: Slices<DateTime>)
    requires
        s.end.dt_secs() <= s.curr.dt_secs(),
    ensures
        temporal_count(s) == 0,
{
}

// endregion

} // verus!
