//! Path resolution: mapping a requested URL to a filesystem path.
//!
//! The caller supplies one fact the resolver cannot learn by itself: whether
//! `root_dir + url` names an existing directory on disk.  The host program
//! obtains it with a metadata lookup; resolution itself is pure.

use vstd::prelude::*;
use vstd::string::StringExecFns;
use vstd::string::StrSliceExecFns;

verus! {

/// The path a request resolves to.  A URL ending in a separator gets the
/// default page appended directly; a URL naming an existing directory gets
/// a separator and the default page; anything else is served as-is.
pub open spec fn spec_resolved_path(
    url: Seq<char>,
    std_page: Seq<char>,
    root_dir: Seq<char>,
    url_is_dir: bool,
) -> Seq<char> {
    if url.len() > 0 && url[url.len() - 1] == '/' {
        root_dir + url + std_page
    } else if url_is_dir {
        root_dir + url + seq!['/'] + std_page
    } else {
        root_dir + url
    }
}

/// Resolves a requested URL against the configured root directory and
/// default page name.  `url_is_dir` reports whether `root_dir + url` names
/// an existing directory on disk.
pub fn get_path(url: &String, std_page: &String, root_dir: &String, url_is_dir: bool) -> (r:
    String)
    requires
        url@.len() > 0,
    ensures
        r@ == spec_resolved_path(url@, std_page@, root_dir@, url_is_dir),
{
    let mut r = String::new();
    r.append(root_dir.as_str());
    r.append(url.as_str());
    proof {
        assert(Seq::<char>::empty() + root_dir@ =~= root_dir@);
    }
    let n = url.as_str().unicode_len();
    let last = url.as_str().get_char(n - 1);
    if last == '/' {
        r.append(std_page.as_str());
        r
    } else if url_is_dir {
        r.append("/");
        r.append(std_page.as_str());
        proof {
            reveal_strlit("/");
            assert("/"@ =~= seq!['/']);
        }
        r
    } else {
        r
    }
}

} // verus!
