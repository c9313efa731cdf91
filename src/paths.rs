//! Where the tool keeps its own files.
use vstd::prelude::*;
use crate::plan::{is_main_separator, main_separator};
use crate::text::{push_char, push_str};

verus! {

/// The directory name the tool uses under the platform's data directory.
pub const PRODUCT_NAME: &'static str = "dev.thmsn.stitch";

/// Relies on `dirs::data_local_dir`: the user's local data directory, when the
/// platform has one; `None` as well when the path is not valid UTF-8.
#[verifier::external_body]
fn data_local_dir() -> (r: Option<String>)
{
    dirs::data_local_dir().and_then(|p| p.to_str().map(|s| s.to_owned()))
}

/// `p` is `base`, a separator, the tool's directory name, and then
/// `rest` after a second separator when `rest` is given; both separators are
/// the same platform separator.
pub open spec fn under_base(p: Seq<char>, base: Seq<char>, rest: Option<Seq<char>>) -> bool {
    let c = p[base.len() as int];
    &&& p.len() > base.len()
    &&& is_main_separator(c)
    &&& match rest {
        None => p == base.push(c) + PRODUCT_NAME@,
        Some(r) => p == base.push(c) + PRODUCT_NAME@ + seq![c] + r,
    }
}

/// `p` is [`under_base`] for some data directory.
pub open spec fn in_some_base(p: Seq<char>, rest: Option<Seq<char>>) -> bool {
    exists|base: Seq<char>| #[trigger] under_base(p, base, rest)
}

/// The tool's directory inside the data directory `base`.
pub fn data_root_in(base: &str) -> (r: String)
    ensures
        under_base(r@, base@, None),
{
    let mut p = base.to_owned();
    let sep = main_separator();
    push_char(&mut p, sep);
    push_str(&mut p, PRODUCT_NAME);
    assert(p@[base@.len() as int] == sep);
    p
}

/// The log directory for the data directory `base`.
pub fn logs_root_in(base: &str) -> (r: String)
    ensures
        under_base(r@, base@, Some("logs"@)),
{
    let mut p = base.to_owned();
    let sep = main_separator();
    push_char(&mut p, sep);
    push_str(&mut p, PRODUCT_NAME);
    push_char(&mut p, sep);
    push_str(&mut p, "logs");
    assert(p@[base@.len() as int] == sep);
    assert(p@ =~= base@.push(sep) + PRODUCT_NAME@ + seq![sep] + "logs"@);
    p
}

/// The tool's directory under the user's local data directory; `None` when
/// the platform gives no such directory.
pub fn data_root() -> (r: Option<String>)
    ensures
        match r {
            Some(p) => in_some_base(p@, None),
            None => true,
        },
{
    match data_local_dir() {
        Some(base) => {
            let p = data_root_in(base.as_str());
            assert(under_base(p@, base@, None));
            Some(p)
        },
        None => None,
    }
}

/// The tool's log directory under the user's local data directory; `None`
/// when the platform gives no such directory.
pub fn logs_root() -> (r: Option<String>)
    ensures
        match r {
            Some(p) => in_some_base(p@, Some("logs"@)),
            None => true,
        },
{
    match data_local_dir() {
        Some(base) => {
            let p = logs_root_in(base.as_str());
            assert(under_base(p@, base@, Some("logs"@)));
            Some(p)
        },
        None => None,
    }
}

} // verus!
