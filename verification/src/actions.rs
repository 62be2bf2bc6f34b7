//! The payloads and URLs of the single-shot commands against a core.

use crate::args::{CommonArgs, Delete};
use crate::helpers::with_prefix_spec;
use crate::helpers::append;
use crate::models::commit_param_spec;
use vstd::prelude::*;

verus! {

/// The body of an explicit hard commit.
pub fn commit_content() -> (r: &'static str)
    ensures
        r@ == "{ \"commit\": {} } "@,
{
    "{ \"commit\": {} } "
}

/// The body of a bulk delete: the query wrapped in a delete envelope.
pub fn delete_content(query: &str) -> (r: String)
    ensures
        r@ == "<delete><query>"@ + query@ + "</query></delete>"@,
{
    let head = append("<delete><query>", query);
    append(head.as_str(), "</query></delete>")
}

impl Delete {
    /// The update URL a bulk delete posts to, carrying its commit mode.
    pub fn get_delete_url(&self) -> (r: String)
        ensures
            r@ == crate::args::core_handler_url_spec(self.options, "/update"@)
                + with_prefix_spec(commit_param_spec(self.flush, "?"@), "?"@),
    {
        let flush = self.flush.as_param("?");
        self.options.get_update_url_with(flush.as_str())
    }
}

/// The URL that toggles replication on the target core: the enabling command
/// after the run, the disabling one before it.
pub fn replication_url(options: &CommonArgs, enable: bool) -> (r: String)
    ensures
        enable ==> r@ == crate::args::core_handler_url_spec(
            *options,
            "/replication?command=enablereplication"@,
        ),
        !enable ==> r@ == crate::args::core_handler_url_spec(
            *options,
            "/replication?command=disablereplication"@,
        ),
{
    if enable {
        options.get_core_handler_url("/replication?command=enablereplication")
    } else {
        options.get_core_handler_url("/replication?command=disablereplication")
    }
}

} // verus!
