//! Configuration records for a run, and the grammars of the flag values.

use crate::helpers::{
    digits_val, is_digit_char, is_prefix, is_ws, lower_char, run_len, trimmed, upper_char,
    with_prefix_spec, with_suffix_spec,
};
use crate::helpers::{
    append, lemma_run_len, lemma_run_len_props, parse_digits, starts_with_str, str_eq, subvec,
    to_ascii_lower, to_ascii_upper, to_chars, trim_str, with_prefix, with_suffix,
};
use crate::models::{CommitMode, Compression, IterateMode, SortDirection, SortField, SortOrder};
use vstd::prelude::*;

verus! {

// region configuration records

/// What every command needs: the cluster URL and the core name.
pub struct CommonArgs {
    pub url: String,
    pub core: String,
}

/// How the transfer is parallelised and throttled.
pub struct ParallelArgs {
    pub dir: String,
    pub params: Option<String>,
    pub max_errors: u64,
    pub delay_before: u64,
    pub delay_per_request: u64,
    pub delay_after: u64,
    pub readers: u64,
    pub writers: u64,
}

/// Configuration of a backup run.
pub struct Backup {
    pub query: Option<String>,
    pub fq: Option<String>,
    pub order: Vec<SortField>,
    pub skip: u64,
    pub limit: Option<u64>,
    pub select: Vec<String>,
    pub iterate_by: IterateMode,
    pub iterate_between: Vec<String>,
    pub iterate_step: u64,
    pub num_docs: u64,
    pub archive_files: u64,
    pub zip_prefix: Option<String>,
    pub workaround_shards: u64,
    pub archive_compression: Compression,
    pub options: CommonArgs,
    pub transfer: ParallelArgs,
}

/// Configuration of a restore run.
pub struct Restore {
    pub flush: CommitMode,
    pub no_final_commit: bool,
    pub disable_replication: bool,
    pub search: Option<String>,
    pub order: SortOrder,
    pub options: CommonArgs,
    pub transfer: ParallelArgs,
}

/// Configuration of a bulk delete.
pub struct Delete {
    pub query: String,
    pub flush: CommitMode,
    pub options: CommonArgs,
}

/// Configuration of a single-shot command against a core.
pub struct Execute {
    pub options: CommonArgs,
}

/// The URL of one handler of the core: base URL, a `/`, the core name, and
/// the handler path behind one `/`.
pub open spec fn core_handler_url_spec(opts: CommonArgs, path: Seq<char>) -> Seq<char> {
    with_suffix_spec(opts.url@, "/"@) + opts.core@ + with_prefix_spec(path, "/"@)
}

impl CommonArgs {
    /// A single-shot command aimed at the same core.
    pub fn to_command(&self) -> (r: Execute)
        ensures
            r.options.url@ == self.url@,
            r.options.core@ == self.core@,
    {
        Execute { options: CommonArgs { url: self.url.clone(), core: self.core.clone() } }
    }

    /// The URL of the named handler of this core.
    pub fn get_core_handler_url(&self, handler_url_path: &str) -> (r: String)
        ensures
            r@ == core_handler_url_spec(*self, handler_url_path@),
    {
        let base = with_suffix(self.url.as_str(), "/");
        let head = append(base.as_str(), self.core.as_str());
        let tail = with_prefix(handler_url_path, "/");
        append(head.as_str(), tail.as_str())
    }

    /// The update-handler URL with the given query string behind one `?`.
    pub fn get_update_url_with(&self, query_string_params: &str) -> (r: String)
        ensures
            r@ == core_handler_url_spec(*self, "/update"@) + with_prefix_spec(
                query_string_params@,
                "?"@,
            ),
    {
        let head = self.get_core_handler_url("/update");
        proof {
            reveal_strlit("/update");
            reveal_strlit("/");
            assert(is_prefix("/update"@, "/"@)) by {
                assert("/update"@.subrange(0, 1) =~= "/"@);
            }
        }
        let tail = with_prefix(query_string_params, "?");
        append(head.as_str(), tail.as_str())
    }

    /// The bare update-handler URL.
    pub fn get_update_url(&self) -> (r: String)
        ensures
            r@ == core_handler_url_spec(*self, "/update"@),
    {
        proof {
            reveal_strlit("");
        }
        let r = self.get_update_url_with("");
        proof {
            assert(r@ =~= core_handler_url_spec(*self, "/update"@));
        }
        r
    }
}

/// The extra update-handler parameter an optional setting contributes,
/// behind the given separator; nothing when none was configured.
pub open spec fn extra_param_spec(params: Option<String>, sep: Seq<char>) -> Seq<char> {
    match params {
        Some(p) => with_prefix_spec(p@, sep),
        None => Seq::<char>::empty(),
    }
}

impl ParallelArgs {
    /// The extra update-handler parameter, behind the given separator;
    /// nothing when none was configured.
    pub fn get_param(&self, separator: &str) -> (r: String)
        ensures
            r@ == extra_param_spec(self.params, separator@),
    {
        match &self.params {
            Some(p) => with_prefix(p.as_str(), separator),
            None => String::new(),
        }
    }
}

// endregion

// region quantity and interval grammars

/// A word character: an ASCII letter, digit or underscore.
pub open spec fn is_word_char(c: char) -> bool {
    is_digit_char(c) || (65 <= c as u32 <= 90) || (97 <= c as u32 <= 122) || c == '_'
}

/// An ASCII letter.
pub open spec fn is_alpha_char(c: char) -> bool {
    (65 <= c as u32 <= 90) || (97 <= c as u32 <= 122)
}

/// The multiplier an uppercased quantity suffix denotes: a power of a
/// thousand for `K`/`M`/`G`/`T`, optionally followed by `B`; one for no
/// suffix; nothing for anything else.
pub open spec fn quantity_mult(x: Seq<char>) -> Option<u64> {
    let m: Option<u64> = if x.len() >= 1 {
        if x[0] == 'K' {
            Some(1000u64)
        } else if x[0] == 'M' {
            Some(1000000u64)
        } else if x[0] == 'G' {
            Some(1000000000u64)
        } else if x[0] == 'T' {
            Some(1000000000000u64)
        } else {
            None
        }
    } else {
        None
    };
    if x.len() == 0 {
        Some(1u64)
    } else if x.len() == 1 {
        m
    } else if x.len() == 2 && x[1] == 'B' {
        m
    } else {
        None
    }
}

/// What a quantity flag denotes once trimmed and uppercased: a run of
/// digits, optional whitespace, and an optional multiplier suffix; nothing
/// when the shape is wrong or the value exceeds `u64::MAX`.
pub open spec fn quantity_spec(t: Seq<char>) -> Option<u64> {
    let d = run_len(t, 0, |c: char| is_digit_char(c));
    if d == 0 {
        None
    } else {
        let w = d + run_len(t, d, |c: char| is_ws(c));
        match quantity_mult(t.skip(w)) {
            None => None,
            Some(m) => {
                let v = digits_val(t.take(d)) * m;
                if v <= u64::MAX {
                    Some(v as u64)
                } else {
                    None
                }
            },
        }
    }
}

/// The normalised form a quantity flag is read in.
pub open spec fn quantity_norm(s: Seq<char>) -> Seq<char> {
    trimmed(s).map_values(|c: char| upper_char(c))
}

fn scan_run(v: &Vec<char>, from: usize, ascii_lo: u32, ascii_hi: u32) -> (r: usize)
    requires
        from <= v@.len(),
    ensures
        from <= from + r <= v@.len(),
        r == run_len(v@, from as int, |c: char| ascii_lo <= c as u32 <= ascii_hi),
{
    let mut i: usize = from;
    while i < v.len() && ascii_lo <= v[i] as u32 && v[i] as u32 <= ascii_hi
        invariant
            from <= i <= v@.len(),
            forall|k: int| from <= k < i ==> ascii_lo <= (#[trigger] v@[k]) as u32 <= ascii_hi,
        decreases v@.len() - i,
    {
        i += 1;
    }
    proof {
        lemma_run_len(v@, from as int, i as int, |c: char| ascii_lo <= c as u32 <= ascii_hi);
    }
    i - from
}

fn scan_ws_run(v: &Vec<char>, from: usize) -> (r: usize)
    requires
        from <= v@.len(),
    ensures
        from <= from + r <= v@.len(),
        r == run_len(v@, from as int, |c: char| is_ws(c)),
{
    let mut i: usize = from;
    while i < v.len() && crate::helpers::is_ws_char(v[i])
        invariant
            from <= i <= v@.len(),
            forall|k: int| from <= k < i ==> is_ws(#[trigger] v@[k]),
        decreases v@.len() - i,
    {
        i += 1;
    }
    proof {
        lemma_run_len(v@, from as int, i as int, |c: char| is_ws(c));
    }
    i - from
}

/// Reads a quantity flag such as `42`, `3k` or `10 MB`.
pub fn parse_quantity(src: &str) -> (r: Result<u64, String>)
    ensures
        match quantity_spec(quantity_norm(src@)) {
            Some(x) => r is Ok && r->Ok_0 == x,
            None => r is Err,
        },
{
    let up0 = trim_str(src);
    let up = to_ascii_upper(up0.as_str());
    let v = to_chars(up.as_str());
    let ghost t = quantity_norm(src@);
    proof {
        assert(v@ == t);
    }
    let d = scan_run(&v, 0, 48, 57);
    proof {
        assert((|c: char| 48 <= c as u32 <= 57) =~= (|c: char| is_digit_char(c)));
    }
    if d == 0 {
        return Err(append("Wrong value, use numbers only or a suffix K M G T: ", src));
    }
    let n = v.len();
    let ws = scan_ws_run(&v, d);
    proof {
        assert(d + ws <= n);
    }
    let w = d + ws;
    let digits = subvec(&v, 0, d);
    proof {
        assert(digits@ =~= t.take(d as int));
    }
    let suffix = subvec(&v, w, v.len());
    proof {
        assert(suffix@ =~= t.skip(w as int));
    }
    let mult: u64 = if suffix.len() == 0 {
        1
    } else {
        let lead = suffix[0];
        let head: u64 = if lead == 'K' {
            1000
        } else if lead == 'M' {
            1000000
        } else if lead == 'G' {
            1000000000
        } else if lead == 'T' {
            1000000000000
        } else {
            return Err(append("Wrong quantity multiplier in: ", src));
        };
        if suffix.len() == 1 {
            head
        } else if suffix.len() == 2 && suffix[1] == 'B' {
            head
        } else {
            return Err(append("Wrong quantity multiplier in: ", src));
        }
    };
    proof {
        lemma_run_len_props(t, 0, |c: char| is_digit_char(c));
        assert forall|k: int| 0 <= k < digits@.len() implies is_digit_char(
            #[trigger] digits@[k],
        ) by {
            assert(digits@[k] == t[k]);
        }
    }
    match parse_digits(&digits) {
        None => {
            proof {
                vstd::arithmetic::mul::lemma_mul_inequality(
                    1,
                    mult as int,
                    digits_val(t.take(d as int)) as int,
                );
            }
            Err(append("Wrong value for number: ", src))
        },
        Some(x) => {
            proof {
                vstd::arithmetic::mul::lemma_mul_upper_bound(
                    x as int,
                    u64::MAX as int,
                    mult as int,
                    1000000000000,
                );
            }
            let wide: u128 = (x as u128) * (mult as u128);
            if wide > 0xffff_ffff_ffff_ffffu128 {
                Err(append("Number out of range: ", src))
            } else {
                Ok(wide as u64)
            }
        },
    }
}

/// Reads a quantity flag that also accepts the word `max`.
pub fn parse_quantity_max(s: &str) -> (r: Result<u64, String>)
    ensures
        s@.map_values(|c: char| lower_char(c)) == "max"@ ==> r is Ok && r->Ok_0 == u64::MAX,
        s@.map_values(|c: char| lower_char(c)) != "max"@ ==> match quantity_spec(
            quantity_norm(s@),
        ) {
            Some(x) => r is Ok && r->Ok_0 == x,
            None => r is Err,
        },
{
    let lower = to_ascii_lower(s);
    if str_eq(lower.as_str(), "max") {
        Ok(u64::MAX)
    } else {
        match parse_quantity(s) {
            Ok(value) => Ok(value),
            Err(_) => Err(append("expected max or a quantity, got: ", s)),
        }
    }
}

/// The factor a lowercased interval suffix denotes, in milliseconds.
pub open spec fn millis_mult(x: Seq<char>) -> Option<u64> {
    if x == "ms"@ || x == "millis"@ || x == "milliseconds"@ {
        Some(1u64)
    } else if x.len() == 0 || x == "s"@ || x == "sec"@ || x == "secs"@ || x == "seconds"@ {
        Some(1000u64)
    } else if x == "m"@ || x == "min"@ || x == "mins"@ || x == "minutes"@ {
        Some(60000u64)
    } else if x == "h"@ || x == "hr"@ || x == "hrs"@ || x == "hours"@ {
        Some(3600000u64)
    } else {
        None
    }
}

/// What an interval flag denotes once trimmed and lowercased: a run of
/// digits, optional whitespace, and a unit word running to the end; the
/// value in milliseconds, or nothing when the shape is wrong or the value
/// exceeds `u64::MAX`.
pub open spec fn millis_spec(t: Seq<char>) -> Option<u64> {
    let d = run_len(t, 0, |c: char| is_digit_char(c));
    if d == 0 {
        None
    } else {
        let w = d + run_len(t, d, |c: char| is_ws(c));
        let a = run_len(t, w, |c: char| is_alpha_char(c));
        if w + a != t.len() {
            None
        } else {
            match millis_mult(t.skip(w)) {
                None => None,
                Some(m) => {
                    let v = digits_val(t.take(d)) * m;
                    if v <= u64::MAX {
                        Some(v as u64)
                    } else {
                        None
                    }
                },
            }
        }
    }
}

/// The normalised form an interval flag is read in.
pub open spec fn millis_norm(s: Seq<char>) -> Seq<char> {
    trimmed(s).map_values(|c: char| lower_char(c))
}

/// Reads an interval flag such as `500ms`, `3s` or `1 min` into milliseconds.
pub fn parse_millis(src: &str) -> (r: Result<u64, String>)
    ensures
        match millis_spec(millis_norm(src@)) {
            Some(x) => r is Ok && r->Ok_0 == x,
            None => r is Err,
        },
{
    let low0 = trim_str(src);
    let low = to_ascii_lower(low0.as_str());
    let v = to_chars(low.as_str());
    let ghost t = millis_norm(src@);
    proof {
        assert(v@ == t);
    }
    let d = scan_run(&v, 0, 48, 57);
    proof {
        assert((|c: char| 48 <= c as u32 <= 57) =~= (|c: char| is_digit_char(c)));
    }
    if d == 0 {
        return Err(append("Wrong interval, use numbers with a suffix s m h: ", src));
    }
    let n = v.len();
    let ws = scan_ws_run(&v, d);
    proof {
        assert(d + ws <= n);
    }
    let w = d + ws;
    let a = scan_alpha_run(&v, w);
    proof {
        assert(w + a <= n);
    }
    if w + a != n {
        return Err(append("Wrong interval, use numbers with a suffix s m h: ", src));
    }
    let digits = subvec(&v, 0, d);
    proof {
        assert(digits@ =~= t.take(d as int));
    }
    let suffix0 = subvec(&v, w, v.len());
    proof {
        assert(suffix0@ =~= t.skip(w as int));
    }
    let suffix = crate::helpers::from_chars(&suffix0);
    let mult: u64 = if str_eq(suffix.as_str(), "ms") || str_eq(suffix.as_str(), "millis")
        || str_eq(suffix.as_str(), "milliseconds") {
        1
    } else if suffix.as_str().is_empty() || str_eq(suffix.as_str(), "s") || str_eq(suffix.as_str(), "sec")
        || str_eq(suffix.as_str(), "secs") || str_eq(suffix.as_str(), "seconds") {
        1000
    } else if str_eq(suffix.as_str(), "m") || str_eq(suffix.as_str(), "min") || str_eq(
        suffix.as_str(),
        "mins",
    ) || str_eq(suffix.as_str(), "minutes") {
        60000
    } else if str_eq(suffix.as_str(), "h") || str_eq(suffix.as_str(), "hr") || str_eq(
        suffix.as_str(),
        "hrs",
    ) || str_eq(suffix.as_str(), "hours") {
        3600000
    } else {
        return Err(append("Wrong time multiplier in: ", src));
    };
    proof {
        lemma_run_len_props(t, 0, |c: char| is_digit_char(c));
        assert forall|k: int| 0 <= k < digits@.len() implies is_digit_char(
            #[trigger] digits@[k],
        ) by {
            assert(digits@[k] == t[k]);
        }
    }
    match parse_digits(&digits) {
        None => {
            proof {
                vstd::arithmetic::mul::lemma_mul_inequality(
                    1,
                    mult as int,
                    digits_val(t.take(d as int)) as int,
                );
            }
            Err(append("Wrong value for number: ", src))
        },
        Some(x) => {
            proof {
                vstd::arithmetic::mul::lemma_mul_upper_bound(
                    x as int,
                    u64::MAX as int,
                    mult as int,
                    3600000,
                );
            }
            let wide: u128 = (x as u128) * (mult as u128);
            if wide > 0xffff_ffff_ffff_ffffu128 {
                Err(append("Interval out of range: ", src))
            } else {
                Ok(wide as u64)
            }
        },
    }
}

fn alpha_char_exec(c: char) -> (r: bool)
    ensures
        r == is_alpha_char(c),
{
    let u = c as u32;
    (65 <= u && u <= 90) || (97 <= u && u <= 122)
}

fn word_char_exec(c: char) -> (r: bool)
    ensures
        r == is_word_char(c),
{
    let u = c as u32;
    if u == 95 {
        proof {
            assert(c == '_');
        }
        true
    } else {
        (48 <= u && u <= 57) || (65 <= u && u <= 90) || (97 <= u && u <= 122)
    }
}

fn scan_alpha_run(v: &Vec<char>, from: usize) -> (r: usize)
    requires
        from <= v@.len(),
    ensures
        from <= from + r <= v@.len(),
        r == run_len(v@, from as int, |c: char| is_alpha_char(c)),
{
    let mut i: usize = from;
    while i < v.len() && alpha_char_exec(v[i])
        invariant
            from <= i <= v@.len(),
            forall|k: int| from <= k < i ==> is_alpha_char(#[trigger] v@[k]),
        decreases v@.len() - i,
    {
        i += 1;
    }
    proof {
        lemma_run_len(v@, from as int, i as int, |c: char| is_alpha_char(c));
    }
    i - from
}

/// Reads a commit-mode flag: `none`, `soft`, `hard`, or an interval for a
/// commit-within mode.
pub fn parse_commit_mode(s: &str) -> (r: Result<CommitMode, String>)
    ensures
        ({
            let low = s@.map_values(|c: char| lower_char(c));
            if low == "none"@ {
                r is Ok && r->Ok_0 == CommitMode::Off
            } else if low == "soft"@ {
                r is Ok && r->Ok_0 == CommitMode::Soft
            } else if low == "hard"@ {
                r is Ok && r->Ok_0 == CommitMode::Hard
            } else {
                match millis_spec(millis_norm(s@)) {
                    Some(x) => r is Ok && r->Ok_0 == (CommitMode::Within { millis: x }),
                    None => r is Err,
                }
            }
        }),
{
    let lower = to_ascii_lower(s);
    if str_eq(lower.as_str(), "none") {
        Ok(CommitMode::Off)
    } else if str_eq(lower.as_str(), "soft") {
        Ok(CommitMode::Soft)
    } else if str_eq(lower.as_str(), "hard") {
        Ok(CommitMode::Hard)
    } else {
        match parse_millis(s) {
            Ok(value) => Ok(CommitMode::Within { millis: value }),
            Err(_) => Err(append("expected none, soft, hard or an interval, got: ", s)),
        }
    }
}

/// Reads a file-prefix flag: one run of word characters.
pub fn parse_file_prefix(src: &str) -> (r: Result<String, String>)
    ensures
        ({
            let d = run_len(src@, 0, |c: char| is_word_char(c));
            if src@.len() >= 1 && d == src@.len() {
                r is Ok && r->Ok_0@ == src@
            } else {
                r is Err
            }
        }),
{
    let v = to_chars(src);
    let d = scan_word_run(&v, 0);
    if v.len() >= 1 && d == v.len() {
        Ok(src.to_owned())
    } else {
        Err(append("Wrong output filename, use letters and numbers: ", src))
    }
}

pub(crate) fn scan_word_run(v: &Vec<char>, from: usize) -> (r: usize)
    requires
        from <= v@.len(),
    ensures
        from <= from + r <= v@.len(),
        r == run_len(v@, from as int, |c: char| is_word_char(c)),
{
    let mut i: usize = from;
    while i < v.len() && word_char_exec(v[i])
        invariant
            from <= i <= v@.len(),
            forall|k: int| from <= k < i ==> is_word_char(#[trigger] v@[k]),
        decreases v@.len() - i,
    {
        i += 1;
    }
    proof {
        lemma_run_len(v@, from as int, i as int, |c: char| is_word_char(c));
    }
    i - from
}

impl SortField {
    /// Reads one sort-order flag: a field name, optionally followed by a
    /// one-character separator (`:`, `=` or whitespace) and `asc` or `desc`.
    pub fn from_str(s: &str) -> (r: Result<SortField, String>)
        ensures
            ({
                let d = run_len(s@, 0, |c: char| is_word_char(c));
                if s@.len() == 0 || d == 0 {
                    r is Err
                } else if d == s@.len() {
                    r is Ok && r->Ok_0.field@ == s@ && r->Ok_0.direction == SortDirection::Asc
                } else if !(s@[d] == ':' || s@[d] == '=' || is_ws(s@[d])) {
                    r is Err
                } else if s@.skip(d + 1) == "asc"@ {
                    r is Ok && r->Ok_0.field@ == s@.take(d) && r->Ok_0.direction
                        == SortDirection::Asc
                } else if s@.skip(d + 1) == "desc"@ {
                    r is Ok && r->Ok_0.field@ == s@.take(d) && r->Ok_0.direction
                        == SortDirection::Desc
                } else {
                    r is Err
                }
            }),
    {
        let v = to_chars(s);
        if v.len() == 0 {
            return Err(append("missing value", ""));
        }
        let d = scan_word_run(&v, 0);
        if d == 0 {
            return Err(s.to_owned());
        }
        if d == v.len() {
            return Ok(SortField { field: s.to_owned(), direction: SortDirection::Asc });
        }
        let sep = v[d];
        let sep_ok = sep == ':' || sep == '=' || crate::helpers::is_ws_char(sep);
        if !sep_ok {
            return Err(s.to_owned());
        }
        let field0 = subvec(&v, 0, d);
        proof {
            assert(field0@ =~= s@.take(d as int));
        }
        let field = crate::helpers::from_chars(&field0);
        let rest0 = subvec(&v, d + 1, v.len());
        proof {
            assert(rest0@ =~= s@.skip(d + 1 as int));
        }
        let rest = crate::helpers::from_chars(&rest0);
        if str_eq(rest.as_str(), "asc") {
            Ok(SortField { field, direction: SortDirection::Asc })
        } else if str_eq(rest.as_str(), "desc") {
            Ok(SortField { field, direction: SortDirection::Desc })
        } else {
            Err(s.to_owned())
        }
    }
}

// endregion

// region url checking

/// What the library asks of the facts a URL parser reports about the
/// configured base URL before a run may start: the scheme is plain HTTP or
/// HTTPS, there is no query string, and the path holds exactly one segment
/// (the Solr context root, with no core name behind it).
pub open spec fn solr_url_ok(scheme: Seq<char>, has_query: bool, path_segments: int) -> bool {
    (scheme == "http"@ || scheme == "https"@) && !has_query && path_segments == 1
}

/// Decides whether a base URL may be used, from the facts a URL parser
/// reported about it: its scheme, whether it has a query string, and how
/// many path segments it holds. Returns the URL completed with an `http://`
/// prefix when it had no scheme prefix.
pub fn check_solr_url(src: &str, scheme: &str, has_query: bool, path_segments: u64) -> (r: Result<
    String,
    String,
>)
    ensures
        r is Ok <==> solr_url_ok(scheme@, has_query, path_segments as int),
        r is Ok ==> r->Ok_0@ == (if is_prefix(src@, "http://"@) || is_prefix(
            src@,
            "https://"@,
        ) {
            src@
        } else {
            "http://"@ + src@
        }),
{
    let scheme_ok = str_eq(scheme, "http") || str_eq(scheme, "https");
    if !scheme_ok {
        return Err(append("Solr url scheme must be http or https: ", src));
    }
    if has_query {
        return Err(append("Solr url must be a base url without query parameters: ", src));
    }
    if path_segments != 1 {
        return Err(append("Solr url path must hold the context root alone: ", src));
    }
    if starts_with_str(src, "http://") || starts_with_str(src, "https://") {
        Ok(src.to_owned())
    } else {
        Ok(append("http://", src))
    }
}

// endregion

} // verus!
