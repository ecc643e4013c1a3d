//! Writing files: a file is written beside its place and then takes it, so that it is
//! never seen half written and other links to its earlier data keep them.
use crate::disk::{Disk, DiskStep};
use crate::names::{content_file_name, content_temporary_name};
use vstd::prelude::*;
use vstd::string::*;

verus! {

/// A step by which a file is written.
pub enum FileStep {
    /// Write the text to the file of that name.
    Write(String, String),
    /// Let the file of the first name take the place of the second.
    Rename(String, String),
}

impl View for FileStep {
    type V = DiskStep<char>;

    open spec fn view(&self) -> DiskStep<char> {
        match self {
            FileStep::Write(name, text) => DiskStep::Write(name@, text@),
            FileStep::Rename(from, to) => DiskStep::Rename(from@, to@),
        }
    }
}

/// The models of a run of steps.
pub open spec fn step_models(s: Seq<FileStep>) -> Seq<DiskStep<char>> {
    s.map_values(|f: FileStep| f@)
}

/// The steps that put `text` at `name` by way of `temporary`.
pub open spec fn replacing(
    temporary: Seq<char>,
    name: Seq<char>,
    text: Seq<char>,
) -> Seq<DiskStep<char>> {
    seq![DiskStep::Write(temporary, text), DiskStep::Rename(temporary, name)]
}

/// The steps that put `text` at `name` by way of `temporary`.
fn replace_file(temporary: String, name: String, text: String) -> (r: Vec<FileStep>)
    ensures
        step_models(r@) == replacing(temporary@, name@, text@),
{
    let mut r: Vec<FileStep> = Vec::new();
    r.push(FileStep::Write(temporary.clone(), text));
    r.push(FileStep::Rename(temporary, name));
    assert(step_models(r@) =~= replacing(temporary@, name@, text@));
    r
}

/// The steps that write the content of an entry, in the directory of contents.
pub fn write_content(kind: &str, id: &str, content: String) -> (r: Vec<FileStep>)
    ensures
        step_models(r@) == replacing(
            crate::names::content_name(kind@, id@) + ".tmp"@,
            crate::names::content_name(kind@, id@),
            content@,
        ),
{
    replace_file(content_temporary_name(kind, id), content_file_name(kind, id), content)
}

/// The steps that write the data file, in the directory of data.
pub fn write_data(text: String) -> (r: Vec<FileStep>)
    ensures
        step_models(r@) == replacing(
            "workbench-data.json.tmp"@,
            "workbench-data.json"@,
            text@,
        ),
{
    replace_file(
        "workbench-data.json.tmp".to_owned(),
        "workbench-data.json".to_owned(),
        text,
    )
}

/// A file that is replaced is never seen half written: after the first step it still
/// reads as before, and after the second it reads as the new text. Only a link between
/// the file and the temporary name could break this.
pub proof fn law_replaced_at_once(
    d: Disk<char>,
    temporary: Seq<char>,
    name: Seq<char>,
    text: Seq<char>,
)
    requires
        d.well_formed(),
        !d.share(temporary, name),
        temporary != name,
    ensures
        ({
            let steps = replacing(temporary, name, text);
            &&& d.step(steps[0]).read(name) == d.read(name)
            &&& d.step(steps[0]).step(steps[1]).read(name) == Some(text)
        }),
{
    if d.has(name) {
        assert(d.names[name] < d.free);
    }
}

/// Replacing a file leaves every other name as it is, even one that was a link to the
/// same data. Only a link to what the temporary name leads to would be written over.
pub proof fn law_links_spared(
    d: Disk<char>,
    temporary: Seq<char>,
    name: Seq<char>,
    text: Seq<char>,
    other: Seq<char>,
)
    requires
        d.well_formed(),
        !d.share(temporary, other),
        temporary != name,
        other != name,
        other != temporary,
    ensures
        ({
            let steps = replacing(temporary, name, text);
            d.step(steps[0]).step(steps[1]).read(other) == d.read(other)
        }),
{
    if d.has(other) {
        assert(d.names[other] < d.free);
    }
}

} // verus!
