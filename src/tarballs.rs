//! Tarball names of a DILA listing page, without date parsing.
use vstd::prelude::*;

pub use crate::dumps::fonds::{Fond, BASE_URL};
use crate::dumps::tarballs::{find_tarball_names, listed_name};
use crate::text::{sorted_unique, strictly_sorted, views};

verus! {

/// The distinct substrings of a listing page that match `\w*-\w*.tar.gz`,
/// in increasing order.
pub fn get_tarballs_from_page_content(page: &str) -> (r: Vec<String>)
    ensures
        strictly_sorted(views(r@)),
        forall|n: Seq<char>| listed_name(page@, n) <==> views(r@).contains(n),
{
    let found = find_tarball_names(page);
    sorted_unique(&found)
}

} // verus!
