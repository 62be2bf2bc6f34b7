//! Data carried between the pipeline stages.

use crate::helpers::dec_str;
use crate::helpers::{append, u64_to_string};
use vstd::prelude::*;

verus! {

/// One paginated request against the core: its starting offset and its URL.
pub struct Step {
    pub curr: u64,
    pub url: String,
}

/// One extractor result: the step it answers and the raw JSON array text.
pub struct Documents {
    pub step: Step,
    pub docs: String,
}

/// What a probe learned of a core: its document count and its natural
/// field names.
pub struct SolrCore {
    pub num_found: u64,
    pub fields: Vec<String>,
}

/// One slice of the overall query range, as the bound strings substituted
/// into the query template; empty bounds mean a single unsliced pass.
pub struct SliceItem {
    pub begin: String,
    pub end: String,
}

/// How entries are compressed inside an archive.
#[derive(Copy, Clone, Debug, PartialEq, Eq, Structural)]
pub enum Compression {
    Stored,
    Zip,
    Zstd,
}

impl Compression {
    /// The file extension of archives written with this compression.
    pub fn get_ext(&self) -> (r: &'static str)
        ensures
            *self == Compression::Zstd ==> r@ == "zstd"@,
            *self != Compression::Zstd ==> r@ == "zip"@,
    {
        if *self == Compression::Zstd {
            "zstd"
        } else {
            "zip"
        }
    }
}

/// How the overall query range is cut into slices.
#[derive(Copy, Clone, Debug, PartialEq, Eq, Structural)]
pub enum IterateMode {
    Off,
    Minute,
    Hour,
    Day,
    Range,
}

/// The order in which archives are enumerated for restore.
#[derive(Copy, Clone, Debug, PartialEq, Eq, Structural)]
pub enum SortOrder {
    Off,
    Asc,
    Desc,
}

/// The commit discipline applied to each update request.
#[derive(Copy, Clone, Debug, PartialEq, Eq, Structural)]
pub enum CommitMode {
    Off,
    Hard,
    Soft,
    Within { millis: u64 },
}

/// The query parameter a commit mode appends to an update URL, after the
/// given separator; no parameter at all when commits are off.
pub open spec fn commit_param_spec(m: CommitMode, sep: Seq<char>) -> Seq<char> {
    match m {
        CommitMode::Soft => sep + "softCommit=true"@,
        CommitMode::Hard => sep + "commit=true"@,
        CommitMode::Within { millis } => sep + "commitWithin="@ + dec_str(millis as nat),
        CommitMode::Off => Seq::empty(),
    }
}

impl CommitMode {
    /// Encodes the mode as the query parameter to append to an update URL.
    pub fn as_param(&self, separator: &str) -> (r: String)
        ensures
            r@ == commit_param_spec(*self, separator@),
    {
        match self {
            CommitMode::Soft => append(separator, "softCommit=true"),
            CommitMode::Hard => append(separator, "commit=true"),
            CommitMode::Within { millis } => {
                let head = append(separator, "commitWithin=");
                let num = u64_to_string(*millis);
                append(head.as_str(), num.as_str())
            },
            CommitMode::Off => String::new(),
        }
    }
}

impl Default for CommitMode {
    /// The default commit discipline: a commit forced within forty seconds.
    fn default() -> (r: Self)
        ensures
            r == (CommitMode::Within { millis: 40000u64 }),
    {
        CommitMode::Within { millis: 40000 }
    }
}

/// The direction one sort field asks for.
#[derive(Copy, Clone, Debug, PartialEq, Eq, Structural)]
pub enum SortDirection {
    Asc,
    Desc,
}

/// One field of the retrieval order.
pub struct SortField {
    pub field: String,
    pub direction: SortDirection,
}

/// The wire form of one sort field: its name and its direction, separated
/// by an encoded space.
pub open spec fn sort_field_text(f: SortField) -> Seq<char> {
    f.field@ + "%20"@ + (match f.direction {
        SortDirection::Asc => "Asc"@,
        SortDirection::Desc => "Desc"@,
    })
}

impl SortField {
    /// Renders the field for the `sort` query parameter.
    pub fn as_text(&self) -> (r: String)
        ensures
            r@ == sort_field_text(*self),
    {
        let head = append(self.field.as_str(), "%20");
        match self.direction {
            SortDirection::Asc => append(head.as_str(), "Asc"),
            SortDirection::Desc => append(head.as_str(), "Desc"),
        }
    }
}

/// An entry read back out of an archive: where it came from and its raw
/// JSON text.
pub struct Docs {
    pub json: String,
    pub archive: String,
    pub entry: String,
}

impl Docs {
    pub fn new(archive_name: String, entry_name: String, documents: String) -> (r: Self)
        ensures
            r.archive == archive_name,
            r.entry == entry_name,
            r.json == documents,
    {
        Docs { archive: archive_name, entry: entry_name, json: documents }
    }
}

} // verus!
