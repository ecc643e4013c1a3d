//! The names of the files that the workbench keeps, and of what it asks for.
use crate::text::{decimal_int_text, decimal_text};
use vstd::prelude::*;
use vstd::string::*;

verus! {

/// The name of the file with the content of an entry.
pub open spec fn content_name(kind: Seq<char>, id: Seq<char>) -> Seq<char> {
    kind + "-"@ + id + ".txt"@
}

/// The name of the file with the content of an entry.
pub fn content_file_name(kind: &str, id: &str) -> (r: String)
    ensures
        r@ == content_name(kind@, id@),
{
    let mut r = kind.to_owned();
    r.append("-");
    r.append(id);
    r.append(".txt");
    r
}

/// The name under which that file is written before it takes its place.
pub fn content_temporary_name(kind: &str, id: &str) -> (r: String)
    ensures
        r@ == content_name(kind@, id@) + ".tmp"@,
{
    let mut r = content_file_name(kind, id);
    r.append(".tmp");
    r
}

/// The name of the backup made at a stamp.
pub open spec fn backup_of(stamp: nat) -> Seq<char> {
    "backup-"@ + crate::text::decimal(stamp)
}

/// The name of the backup made at that stamp, in milliseconds.
pub fn backup_name(stamp: u128) -> (r: String)
    ensures
        r@ == backup_of(stamp as nat),
{
    let mut r = "backup-".to_owned();
    r.append(decimal_text(stamp).as_str());
    r
}

/// The name of the file that keeps the holidays of a year.
pub fn holiday_file_name(year: i32) -> (r: String)
    ensures
        r@ == "holidays-"@ + crate::text::decimal_int(year as int) + ".json"@,
{
    let mut r = "holidays-".to_owned();
    r.append(decimal_int_text(year).as_str());
    r.append(".json");
    r
}

/// The address that tells the holidays of a year.
pub fn holiday_url(year: i32) -> (r: String)
    ensures
        r@ == "https://timor.tech/api/holiday/year/"@ + crate::text::decimal_int(year as int),
{
    let mut r = "https://timor.tech/api/holiday/year/".to_owned();
    r.append(decimal_int_text(year).as_str());
    r
}

/// The argument with which a file manager shows the file at `path`.
pub fn select_argument(path: &str) -> (r: String)
    ensures
        r@ == "/select,"@ + path@,
{
    let mut r = "/select,".to_owned();
    r.append(path);
    r
}

/// Two entries of one kind have different files where their ids differ.
pub proof fn law_content_names_differ(kind: Seq<char>, a: Seq<char>, b: Seq<char>)
    requires
        a != b,
    ensures
        content_name(kind, a) != content_name(kind, b),
{
    let x = content_name(kind, a);
    let y = content_name(kind, b);
    if x == y {
        let k = kind.len() + "-"@.len();
        assert(x.len() == y.len());
        assert(x.subrange(k as int, (k + a.len()) as int) =~= a);
        assert(y.subrange(k as int, (k + b.len()) as int) =~= b);
    }
}

/// A book and a document never share a file.
pub proof fn law_kinds_differ(a: Seq<char>, b: Seq<char>)
    ensures
        content_name("book"@, a) != content_name("doc"@, b),
{
    reveal_strlit("book");
    reveal_strlit("doc");
    assert(content_name("book"@, a)[0] == 'b');
    assert(content_name("doc"@, b)[0] == 'd');
}

/// A file that is being written never stands at the name of a finished one.
pub proof fn law_temporary_apart(
    kind: Seq<char>,
    id: Seq<char>,
    other_kind: Seq<char>,
    other_id: Seq<char>,
)
    ensures
        content_name(kind, id) + ".tmp"@ != content_name(other_kind, other_id),
{
    reveal_strlit(".tmp");
    reveal_strlit(".txt");
    let x = content_name(kind, id) + ".tmp"@;
    let y = content_name(other_kind, other_id);
    assert(x[x.len() - 1] == 'p');
    assert(y[y.len() - 1] == 't');
}

} // verus!
