//! Laws on saving and loading: what goes to files, what stays in the document, and what
//! is loaded.
use crate::disk::DiskStep;
use crate::json::JsonTree;
use crate::store::{ContentText, Loaded, LoadStepModel};
use vstd::prelude::*;

verus! {

/// Whether an entry has that id and that content, and neither is empty.
pub open spec fn entry_with(item: JsonTree, id: Seq<char>, content: Seq<char>) -> bool {
    &&& crate::laws::holds_text(item, "id"@, id)
    &&& crate::laws::holds_text(item, "content"@, content)
    &&& id.len() > 0
    &&& content.len() > 0
}

/// An entry goes to a file exactly where it has an id and a content.
proof fn lemma_has_content(item: JsonTree)
    ensures
        crate::store::has_content(item) <==> entry_with(
            item,
            item.text_or_empty("id"@),
            item.text_or_empty("content"@),
        ),
{
    crate::laws::documents::law_text_or_empty(item, "id"@, item.text_or_empty("id"@));
    crate::laws::documents::law_text_or_empty(item, "content"@, item.text_or_empty("content"@));
}

/// The contents that go to files are those of the entries that have an id and a content,
/// whatever else they hold; each whole, and no others.
pub proof fn law_contents(items: Seq<JsonTree>, kind: Seq<char>, c: ContentText)
    ensures
        crate::store::contents_of(items, kind).contains(c) <==> c.kind == kind && exists|i: int|
            0 <= i < items.len() && entry_with(#[trigger] items[i], c.id, c.content),
    decreases items.len(),
{
    let all = crate::store::contents_of(items, kind);
    if items.len() > 0 {
        let front = items.drop_last();
        let last = items[items.len() - 1];
        let before = crate::store::contents_of(front, kind);
        law_contents(front, kind, c);
        lemma_has_content(last);
        if before.contains(c) {
            let k = choose|k: int| 0 <= k < before.len() && before[k] == c;
            assert(all[k] == c);
            let i = choose|i: int|
                0 <= i < front.len() && entry_with(#[trigger] front[i], c.id, c.content);
            assert(items[i] == front[i]);
        }
        if all.contains(c) && !before.contains(c) {
            let k = choose|k: int| 0 <= k < all.len() && all[k] == c;
            if k < before.len() {
                assert(before[k] == c);
            }
            assert(entry_with(items[items.len() - 1], c.id, c.content));
        }
        if c.kind == kind && exists|i: int|
            0 <= i < items.len() && entry_with(#[trigger] items[i], c.id, c.content) {
            let i = choose|i: int|
                0 <= i < items.len() && entry_with(#[trigger] items[i], c.id, c.content);
            if i < front.len() {
                assert(front[i] == items[i]);
            } else {
                lemma_entry(last, c.id, c.content);
                assert(all[all.len() - 1] == c);
            }
        }
    }
}

/// An entry with an id and a content is one that goes to a file.
proof fn lemma_entry(item: JsonTree, id: Seq<char>, content: Seq<char>)
    requires
        entry_with(item, id, content),
    ensures
        crate::store::has_content(item),
        item.text_or_empty("id"@) == id,
        item.text_or_empty("content"@) == content,
{
    crate::laws::documents::law_text_or_empty(item, "id"@, id);
    crate::laws::documents::law_text_or_empty(item, "content"@, content);
}

/// The contents come in the order of the entries.
pub proof fn law_contents_in_order(a: Seq<JsonTree>, b: Seq<JsonTree>, kind: Seq<char>)
    ensures
        crate::store::contents_of(a + b, kind) == crate::store::contents_of(a, kind)
            + crate::store::contents_of(b, kind),
    decreases b.len(),
{
    if b.len() == 0 {
        assert(a + b =~= a);
        assert(crate::store::contents_of(a, kind) + crate::store::contents_of(b, kind)
            =~= crate::store::contents_of(a, kind));
    } else {
        law_contents_in_order(a, b.drop_last(), kind);
        assert((a + b).drop_last() =~= a + b.drop_last());
        assert((a + b).last() == b.last());
        assert(crate::store::contents_of(a + b, kind) =~= crate::store::contents_of(a, kind)
            + crate::store::contents_of(b, kind));
    }
}

/// The preview of a content is its beginning, of two hundred characters where it has so
/// many.
pub proof fn law_preview(content: Seq<char>)
    ensures
        ({
            let p = crate::store::preview_of(content);
            &&& content.len() <= 200 ==> p == content
            &&& content.len() > 200 ==> p.len() == 200 && forall|i: int|
                0 <= i < 200 ==> #[trigger] p[i] == content[i]
        }),
{
}

/// An entry with an id and a content goes to a file, whatever else it holds: the content
/// in its turn is its own, and where that was written, the entry that is saved has an
/// empty content and the beginning of the content as its preview, and all else that it
/// had. Where it was not written, the entry is saved as it is.
pub proof fn law_entry_saved(
    items: Seq<JsonTree>,
    kind: Seq<char>,
    written: Seq<bool>,
    i: int,
    id: Seq<char>,
    content: Seq<char>,
    key: Seq<char>,
)
    requires
        0 <= i < items.len(),
        entry_with(items[i], id, content),
    ensures
        ({
            let k = crate::store::contents_of(items.take(i), kind).len() as int;
            let saved = crate::store::split_items(items, written)[i];
            &&& crate::store::split_items(items, written).len() == items.len()
            &&& k < crate::store::contents_of(items, kind).len()
            &&& crate::store::contents_of(items, kind)[k] == (ContentText { kind, id, content })
            &&& k < written.len() && written[k] ==> {
                &&& crate::laws::holds_text(saved, "content"@, Seq::empty())
                &&& crate::laws::holds_text(
                    saved,
                    "preview"@,
                    if content.len() <= 200 {
                        content
                    } else {
                        content.take(200)
                    },
                )
                &&& key != "content"@ && key != "preview"@ ==> saved is Object && items[i]
                    is Object && saved->Object_0.dom().contains(key)
                    == items[i]->Object_0.dom().contains(key) && saved->Object_0[key]
                    == items[i]->Object_0[key]
            }
            &&& !(k < written.len() && written[k]) ==> saved == items[i]
        }),
    decreases items.len(),
{
    let front = items.drop_last();
    let last = items[items.len() - 1];
    lemma_same_length(front, written);
    lemma_entry(items[i], id, content);
    if i == items.len() - 1 {
        assert(items.take(i) =~= front);
        lemma_same_count(front, kind, Seq::empty());
        reveal_strlit("preview");
        reveal_strlit("content");
        assert("preview"@[0] == 'p' && "content"@[0] == 'c');
        if content.len() <= 200 {
            assert(crate::store::preview_of(content) == content);
        }
    } else {
        assert(front.take(i) =~= items.take(i));
        assert(front[i] == items[i]);
        law_entry_saved(front, kind, written, i, id, content, key);
    }
}

/// Any other entry is saved as it is.
pub proof fn law_other_entries_saved(items: Seq<JsonTree>, written: Seq<bool>, i: int)
    requires
        0 <= i < items.len(),
        forall|id: Seq<char>, content: Seq<char>| !#[trigger] entry_with(items[i], id, content),
    ensures
        crate::store::split_items(items, written).len() == items.len(),
        crate::store::split_items(items, written)[i] == items[i],
    decreases items.len(),
{
    let front = items.drop_last();
    lemma_same_length(front, written);
    lemma_has_content(items[i]);
    if i < items.len() - 1 {
        assert(front[i] == items[i]);
        law_other_entries_saved(front, written, i);
    }
}

/// Saving keeps the number of entries.
proof fn lemma_same_length(items: Seq<JsonTree>, written: Seq<bool>)
    ensures
        crate::store::split_items(items, written).len() == items.len(),
    decreases items.len(),
{
    if items.len() > 0 {
        lemma_same_length(items.drop_last(), written);
    }
}

/// How many contents there are does not depend on their kind.
proof fn lemma_same_count(items: Seq<JsonTree>, a: Seq<char>, b: Seq<char>)
    ensures
        crate::store::contents_of(items, a).len() == crate::store::contents_of(items, b).len(),
    decreases items.len(),
{
    if items.len() > 0 {
        lemma_same_count(items.drop_last(), a, b);
    }
}

/// Of a document that is saved, the lists of books and of documents are those with their
/// contents split off, and every other member is as it was. A list that is none, and a
/// document that is no object, is saved as it is.
pub proof fn law_document_saved(
    t: JsonTree,
    books: Seq<bool>,
    documents: Seq<bool>,
    items: Seq<JsonTree>,
    key: Seq<char>,
)
    ensures
        ({
            let saved = crate::store::split_data(t, books, documents);
            &&& crate::laws::holds(t, "books"@, JsonTree::Array(items)) ==> crate::laws::holds(
                saved,
                "books"@,
                JsonTree::Array(crate::store::split_items(items, books)),
            )
            &&& crate::laws::holds(t, "documents"@, JsonTree::Array(items)) ==> crate::laws::holds(
                saved,
                "documents"@,
                JsonTree::Array(crate::store::split_items(items, documents)),
            )
            &&& !(t is Object) ==> saved == t
            &&& t is Object ==> saved is Object && saved->Object_0.dom() == t->Object_0.dom()
            &&& t is Object && t->Object_0.dom().contains(key) && (!(t->Object_0[key] is Array) || (
            key != "books"@ && key != "documents"@)) ==> saved->Object_0[key] == t->Object_0[key]
        }),
{
    reveal_strlit("books");
    reveal_strlit("documents");
    assert("books"@[0] == 'b' && "documents"@[0] == 'd');
    let once = crate::store::split_member(t, "books"@, books);
    let saved = crate::store::split_member(once, "documents"@, documents);
    if t is Object {
        assert(once->Object_0.dom() =~= t->Object_0.dom());
        assert(saved->Object_0.dom() =~= t->Object_0.dom());
    }
}

/// The program starts with the system unless the settings hold false.
pub proof fn law_auto_launch(t: JsonTree)
    ensures
        crate::store::auto_launch_setting(t) <==> !exists|s: JsonTree|
            #[trigger] crate::laws::holds(t, "settings"@, s) && crate::laws::holds(
                s,
                "autoLaunch"@,
                JsonTree::Bool(false),
            ),
{
    if !crate::store::auto_launch_setting(t) {
        let s = t.member("settings"@)->0;
        assert(crate::laws::holds(t, "settings"@, s));
    }
}

/// Loading gives the document that the file holds, and nothing where there is no file or
/// it cannot be read; a file that was read and holds no document is restored.
pub proof fn law_load(exists: bool, text: Seq<char>)
    ensures
        ({
            let nothing = LoadStepModel::Done(Loaded { data: None, restored: false });
            &&& crate::store::load_step(exists, None) == nothing
            &&& crate::store::load_step(false, Some(text)) == nothing
            &&& crate::store::load_step(true, Some(text)) == (match crate::codec::parsed_text(
                text,
            ) {
                Some(t) => LoadStepModel::Done(Loaded { data: Some(t), restored: false }),
                None => LoadStepModel::Restore,
            })
            &&& crate::store::document_in(Some(text)) == crate::codec::parsed_text(text)
            &&& crate::store::document_in(None) is None
        }),
{
}

/// The name of a content file is the kind, a hyphen, the whole id, and `.txt`; that of a
/// backup ends in its stamp.
pub proof fn law_names(kind: Seq<char>, id: Seq<char>, stamp: nat)
    ensures
        ({
            let name = crate::names::content_name(kind, id);
            let n = kind.len() as int;
            &&& name.len() == n + 1 + id.len() + 4
            &&& name.take(n) == kind
            &&& name[n] == '-'
            &&& name.subrange(n + 1, n + 1 + id.len()) == id
            &&& name.skip(n + 1 + id.len()) == seq!['.', 't', 'x', 't']
            &&& crate::names::backup_of(stamp).take(7) == seq!['b', 'a', 'c', 'k', 'u', 'p', '-']
            &&& crate::names::backup_of(stamp).skip(7) == crate::text::decimal(stamp)
        }),
{
    reveal_strlit("-");
    reveal_strlit(".txt");
    reveal_strlit("backup-");
    let name = crate::names::content_name(kind, id);
    let n = kind.len() as int;
    assert(name.take(n) =~= kind);
    assert(name.subrange(n + 1, n + 1 + id.len()) =~= id);
    assert(name.skip(n + 1 + id.len()) =~= seq!['.', 't', 'x', 't']);
    assert(crate::names::backup_of(stamp).take(7) =~= seq!['b', 'a', 'c', 'k', 'u', 'p', '-']);
    assert(crate::names::backup_of(stamp).skip(7) =~= crate::text::decimal(stamp));
}

/// A file is replaced in two steps: the text is written under the temporary name, and
/// that takes the place of the file.
pub proof fn law_replacing(temporary: Seq<char>, name: Seq<char>, text: Seq<char>)
    ensures
        ({
            let steps = crate::files::replacing(temporary, name, text);
            &&& steps.len() == 2
            &&& steps[0] == DiskStep::Write(temporary, text)
            &&& steps[1] == DiskStep::<char>::Rename(temporary, name)
        }),
{
}

} // verus!
