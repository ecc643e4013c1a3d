//! The stored data: long contents in files of their own, saving and loading.
use crate::json::{put_member, take_member, Json, JsonTree, Member};
use vstd::prelude::*;
use vstd::string::*;

verus! {

/// How many characters of a content stay with its entry.
pub const PREVIEW_LENGTH: usize = 200;

/// A content that goes to a file of its own.
pub struct ContentWrite {
    pub kind: &'static str,
    pub id: String,
    pub content: String,
}

/// The model of such a content.
pub struct ContentText {
    pub kind: Seq<char>,
    pub id: Seq<char>,
    pub content: Seq<char>,
}

impl View for ContentWrite {
    type V = ContentText;

    open spec fn view(&self) -> ContentText {
        ContentText { kind: self.kind@, id: self.id@, content: self.content@ }
    }
}

/// The models of a run of contents.
pub open spec fn content_texts(s: Seq<ContentWrite>) -> Seq<ContentText> {
    s.map_values(|w: ContentWrite| w@)
}

/// Whether an entry has a content that goes to a file: an id and a text that are not
/// empty.
pub open spec fn has_content(item: JsonTree) -> bool {
    item.text_or_empty("id"@).len() > 0 && item.text_or_empty("content"@).len() > 0
}

/// The contents of the entries that go to files, in their order.
pub open spec fn contents_of(items: Seq<JsonTree>, kind: Seq<char>) -> Seq<ContentText>
    decreases items.len(),
{
    if items.len() == 0 {
        Seq::empty()
    } else {
        let front = contents_of(items.drop_last(), kind);
        let last = items.last();
        if has_content(last) {
            front.push(
                ContentText {
                    kind,
                    id: last.text_or_empty("id"@),
                    content: last.text_or_empty("content"@),
                },
            )
        } else {
            front
        }
    }
}

/// The beginning of a content that stays with its entry.
pub open spec fn preview_of(content: Seq<char>) -> Seq<char> {
    if content.len() <= PREVIEW_LENGTH {
        content
    } else {
        content.take(PREVIEW_LENGTH as int)
    }
}

/// An entry whose content went to a file: it keeps a preview.
pub open spec fn split_item(item: JsonTree) -> JsonTree {
    match item {
        JsonTree::Object(m) => JsonTree::Object(
            m.insert("preview"@, JsonTree::Text(preview_of(item.text_or_empty("content"@)))).insert(
                "content"@,
                JsonTree::Text(Seq::empty()),
            ),
        ),
        _ => item,
    }
}

/// The entries after an attempt to write their contents, where `written[k]` says
/// whether the content at `k` was written. What was not written stays.
pub open spec fn split_items(items: Seq<JsonTree>, written: Seq<bool>) -> Seq<JsonTree>
    decreases items.len(),
{
    if items.len() == 0 {
        Seq::empty()
    } else {
        let k = contents_of(items.drop_last(), Seq::empty()).len();
        let last = items.last();
        split_items(items.drop_last(), written).push(
            if has_content(last) && k < written.len() && written[k as int] {
                split_item(last)
            } else {
                last
            },
        )
    }
}

/// The document with the entries of that key split.
pub open spec fn split_member(t: JsonTree, key: Seq<char>, written: Seq<bool>) -> JsonTree {
    match t {
        JsonTree::Object(m) => match t.items_at(key) {
            Some(items) => JsonTree::Object(
                m.insert(key, JsonTree::Array(split_items(items, written))),
            ),
            None => t,
        },
        _ => t,
    }
}

/// The document after an attempt to write the contents of its books and documents.
pub open spec fn split_data(t: JsonTree, books: Seq<bool>, documents: Seq<bool>) -> JsonTree {
    split_member(split_member(t, "books"@, books), "documents"@, documents)
}

/// The entries of that key, or none.
pub open spec fn entries(t: JsonTree, key: Seq<char>) -> Seq<JsonTree> {
    crate::reminders::items_or_none(t, key)
}

/// The contents among the entries of that key that go to files.
fn contents_at(value: &Json, key: &str, kind: &'static str) -> (r: Vec<ContentWrite>)
    ensures
        content_texts(r@) == contents_of(entries(value@, key@), kind@),
{
    let mut out: Vec<ContentWrite> = Vec::new();
    assert(content_texts(out@) =~= Seq::<ContentText>::empty());
    if let Some(list) = value.array_at(key) {
        let ghost t = crate::json::trees(list@);
        let mut i: usize = 0;
        assert(t.take(0) =~= Seq::<JsonTree>::empty());
        while i < list.len()
            invariant
                i <= list@.len(),
                t == crate::json::trees(list@),
                content_texts(out@) == contents_of(t.take(i as int), kind@),
            decreases list@.len() - i,
        {
            let ghost before = content_texts(out@);
            proof {
                assert(t.take(i + 1).drop_last() =~= t.take(i as int));
                assert(t[i as int] == list@[i as int]@);
            }
            let id = list[i].str_or_empty("id");
            let content = list[i].str_or_empty("content");
            if !id.as_str().is_empty() && !content.as_str().is_empty() {
                out.push(ContentWrite { kind, id, content });
                assert(content_texts(out@) =~= before.push(
                    ContentText { kind: kind@, id: id@, content: content@ },
                ));
            }
            i = i + 1;
        }
        assert(t.take(i as int) =~= t);
    }
    out
}

/// The contents of the books that go to files.
pub fn book_contents(value: &Json) -> (r: Vec<ContentWrite>)
    ensures
        content_texts(r@) == contents_of(entries(value@, "books"@), "book"@),
{
    contents_at(value, "books", "book")
}

/// The contents of the documents that go to files.
pub fn document_contents(value: &Json) -> (r: Vec<ContentWrite>)
    ensures
        content_texts(r@) == contents_of(entries(value@, "documents"@), "doc"@),
{
    contents_at(value, "documents", "doc")
}

/// The beginning of a content that stays with its entry.
pub fn preview(content: &str) -> (r: String)
    ensures
        r@ == preview_of(content@),
{
    let n: usize = content.unicode_len();
    let k: usize = if n <= PREVIEW_LENGTH {
        n
    } else {
        PREVIEW_LENGTH
    };
    proof {
        assert(content@.subrange(0, k as int) =~= preview_of(content@));
    }
    content.substring_char(0, k).to_owned()
}

/// The entry with its content taken off and a preview kept.
fn without_content(item: Json) -> (r: Json)
    ensures
        r@ == split_item(item@),
{
    let content = item.str_or_empty("content");
    let short = preview(content.as_str());
    match item {
        Json::Object(members) => {
            let members = put_member(members, "preview", Json::Text(short));
            let members = put_member(members, "content", Json::Text(String::new()));
            Json::Object(members)
        },
        other => other,
    }
}

/// How many contents a run of entries has does not depend on their kind.
proof fn lemma_contents_count(items: Seq<JsonTree>, a: Seq<char>, b: Seq<char>)
    ensures
        contents_of(items, a).len() == contents_of(items, b).len(),
        contents_of(items, a).len() <= items.len(),
    decreases items.len(),
{
    if items.len() > 0 {
        lemma_contents_count(items.drop_last(), a, b);
    }
}

/// The entries after an attempt to write their contents.
fn split_list(list: Vec<Json>, written: &Vec<bool>) -> (r: Vec<Json>)
    ensures
        crate::json::trees(r@) == split_items(crate::json::trees(list@), written@),
{
    let ghost all = list@;
    let ghost t = crate::json::trees(list@);
    let mut out: Vec<Json> = Vec::new();
    let mut k: usize = 0;
    let total: usize = list.len();
    assert(t.take(0) =~= Seq::<JsonTree>::empty());
    assert(crate::json::trees(out@) =~= Seq::<JsonTree>::empty());
    for x in it: list
        invariant
            it.seq() == all,
            all.len() == total,
            t == crate::json::trees(all),
            k == contents_of(t.take(it.index() as int), Seq::empty()).len(),
            k <= it.index(),
            crate::json::trees(out@) == split_items(t.take(it.index() as int), written@),
    {
        let ghost i = it.index() as int;
        let ghost before = crate::json::trees(out@);
        proof {
            assert(t.take(i + 1).drop_last() =~= t.take(i));
            assert(t[i] == x@);
        }
        let id = x.str_or_empty("id");
        let content = x.str_or_empty("content");
        let has = !id.as_str().is_empty() && !content.as_str().is_empty();
        if has && k < written.len() && written[k] {
            let y = without_content(x);
            out.push(y);
        } else {
            out.push(x);
        }
        if has {
            k = k + 1;
        }
        assert(crate::json::trees(out@) =~= before.push(crate::json::trees(out@).last()));
    }
    assert(t.take(t.len() as int) =~= t);
    out
}

/// The document with the entries of that key split.
fn split_key(value: Json, key: &str, written: &Vec<bool>) -> (r: Json)
    ensures
        r@ == split_member(value@, key@, written@),
{
    match value {
        Json::Object(members) => {
            let ghost m = crate::json::member_map(members@);
            let (rest, found) = take_member(members, key);
            let ghost without = crate::json::member_map(rest@);
            match found {
                Some(Json::Array(list)) => {
                    let split = split_list(list, written);
                    let done = put_member(rest, key, Json::Array(split));
                    assert(without.insert(key@, Json::Array(split)@) =~= m.insert(
                        key@,
                        Json::Array(split)@,
                    ));
                    Json::Object(done)
                },
                Some(other) => {
                    let done = put_member(rest, key, other);
                    assert(without.insert(key@, other@) =~= m);
                    Json::Object(done)
                },
                None => {
                    assert(without =~= m);
                    Json::Object(rest)
                },
            }
        },
        other => other,
    }
}

/// The document after an attempt to write the contents of its books and documents,
/// where `books` and `documents` say which of them were written. An entry whose
/// content was written keeps a preview; any other entry stays as it is.
pub fn split_content(value: Json, books: &Vec<bool>, documents: &Vec<bool>) -> (r: Json)
    ensures
        r@ == split_data(value@, books@, documents@),
{
    let value = split_key(value, "books", books);
    split_key(value, "documents", documents)
}

/// Whether the program starts with the system: the setting of that name, or true.
pub open spec fn auto_launch_setting(t: JsonTree) -> bool {
    match t.member("settings"@) {
        Some(s) => crate::reminders::flag_or(s, "autoLaunch"@, true),
        None => true,
    }
}

/// Whether the program starts with the system.
fn auto_launch_of(value: &Json) -> (r: bool)
    ensures
        r == auto_launch_setting(value@),
{
    match value.get("settings") {
        Some(s) => match s.bool_at("autoLaunch") {
            Some(b) => b,
            None => true,
        },
        None => true,
    }
}

/// What is saved.
pub struct Saved {
    /// The text of the data file.
    pub text: String,
    /// Whether the program starts with the system.
    pub auto_launch: bool,
}

/// What loading the data gave.
pub struct LoadResult {
    pub data: Option<Json>,
    pub restored: bool,
}

/// The model of what loading the data gave.
pub struct Loaded {
    pub data: Option<JsonTree>,
    pub restored: bool,
}

/// The model of an optional document.
pub open spec fn optional_tree(j: Option<Json>) -> Option<JsonTree> {
    match j {
        Some(j) => Some(j@),
        None => None,
    }
}

/// The model of an optional text.
pub open spec fn optional_text(s: Option<&str>) -> Option<Seq<char>> {
    match s {
        Some(s) => Some(s@),
        None => None,
    }
}

impl View for LoadResult {
    type V = Loaded;

    open spec fn view(&self) -> Loaded {
        Loaded { data: optional_tree(self.data), restored: self.restored }
    }
}

/// What to do once the data file was looked at.
pub enum LoadStep {
    /// Loading is over.
    Done(LoadResult),
    /// The file is damaged: the latest backup is to be restored.
    Restore,
}

/// The model of what to do once the data file was looked at.
pub enum LoadStepModel {
    Done(Loaded),
    Restore,
}

impl View for LoadStep {
    type V = LoadStepModel;

    open spec fn view(&self) -> LoadStepModel {
        match self {
            LoadStep::Done(r) => LoadStepModel::Done(r@),
            LoadStep::Restore => LoadStepModel::Restore,
        }
    }
}

/// The document that a text holds, where there is a text and it holds one.
pub open spec fn document_in(raw: Option<Seq<char>>) -> Option<JsonTree> {
    match raw {
        Some(s) => crate::codec::parsed_text(s),
        None => None,
    }
}

/// What to do with the data file, which exists or not and was read as `raw` or not at
/// all: a file that cannot be read gives nothing, and only one that was read and holds
/// no document is damaged.
pub open spec fn load_step(exists: bool, raw: Option<Seq<char>>) -> LoadStepModel {
    if exists && raw is Some {
        match document_in(raw) {
            Some(t) => LoadStepModel::Done(Loaded { data: Some(t), restored: false }),
            None => LoadStepModel::Restore,
        }
    } else {
        LoadStepModel::Done(Loaded { data: None, restored: false })
    }
}

/// The document that a file holds, which was read as `raw` or not at all.
pub fn read_data(raw: Option<&str>) -> (r: Option<Json>)
    ensures
        optional_tree(r) == document_in(optional_text(raw)),
{
    match raw {
        Some(s) => Json::parse(s),
        None => None,
    }
}

/// What to do with the data file, which exists or not and was read as `raw` or not at
/// all.
pub fn load_data(exists: bool, raw: Option<&str>) -> (r: LoadStep)
    ensures
        r@ == load_step(exists, optional_text(raw)),
{
    if !exists {
        return LoadStep::Done(LoadResult { data: None, restored: false });
    }
    match raw {
        Some(s) => match Json::parse(s) {
            Some(data) => LoadStep::Done(LoadResult { data: Some(data), restored: false }),
            None => LoadStep::Restore,
        },
        None => LoadStep::Done(LoadResult { data: None, restored: false }),
    }
}

/// The end of loading damaged data: what the latest backup gave, if any.
pub fn restored_data(found: Option<Json>) -> (r: LoadResult)
    ensures
        r@ == (Loaded { data: optional_tree(found), restored: found is Some }),
{
    let restored = found.is_some();
    LoadResult { data: found, restored }
}

/// The text of a content file, which exists or not and was read as `text` or not at
/// all: empty where it was not read.
pub fn get_content(exists: bool, text: Option<String>) -> (r: String)
    ensures
        r@ == (if exists && text is Some {
            text->0@
        } else {
            Seq::<char>::empty()
        }),
{
    match text {
        Some(s) => if exists {
            s
        } else {
            String::new()
        },
        None => String::new(),
    }
}

/// What is saved of `value` once its contents were written, or not, to files of their
/// own. Where the document can be stored, loading the text gives back what was saved.
pub fn save_data(value: Json, books: &Vec<bool>, documents: &Vec<bool>) -> (r: Saved)
    ensures
        r.text@ == crate::codec::pretty_text(split_data(value@, books@, documents@)),
        r.auto_launch == auto_launch_setting(value@),
        crate::codec::storable(value@, crate::codec::MAX_NESTING as nat) ==> load_step(
            true,
            Some(r.text@),
        ) == LoadStepModel::Done(
            (Loaded { data: Some(split_data(value@, books@, documents@)), restored: false }),
        ),
{
    let ghost t = value@;
    let value = split_content(value, books, documents);
    let auto_launch = auto_launch_of(&value);
    proof {
        reveal_strlit("settings");
        reveal_strlit("books");
        reveal_strlit("documents");
        assert("settings"@[0] == 's' && "books"@[0] == 'b' && "documents"@[0] == 'd');
        law_other_members_kept(t, books@, documents@, "settings"@);
        if crate::codec::storable(t, crate::codec::MAX_NESTING as nat) {
            law_split_storable(t, books@, documents@, crate::codec::MAX_NESTING as nat);
        }
    }
    let text = value.pretty();
    Saved { text, auto_launch }
}

/// Splitting contents off leaves every other member of the document as it is.
pub proof fn law_other_members_kept(
    t: JsonTree,
    books: Seq<bool>,
    documents: Seq<bool>,
    key: Seq<char>,
)
    requires
        key != "books"@,
        key != "documents"@,
    ensures
        split_data(t, books, documents).member(key) == t.member(key),
{
}

/// An entry whose content went to a file keeps every member but the content and the
/// preview; the preview is the beginning of the content.
pub proof fn law_split_item(item: JsonTree, key: Seq<char>)
    requires
        has_content(item),
    ensures
        key != "preview"@ && key != "content"@ ==> split_item(item).member(key) == item.member(
            key,
        ),
        split_item(item).text_at("preview"@) == Some(
            preview_of(item.text_or_empty("content"@)),
        ),
        split_item(item).text_at("content"@) == Some(Seq::<char>::empty()),
        preview_of(item.text_or_empty("content"@)).len() <= PREVIEW_LENGTH,
        preview_of(item.text_or_empty("content"@)).is_prefix_of(item.text_or_empty("content"@)),
{
    reveal_strlit("preview");
    reveal_strlit("content");
    assert("preview"@[0] == 'p' && "content"@[0] == 'c');
}

/// What was not written stays: where no write succeeds, nothing changes.
pub proof fn law_unwritten_kept(t: JsonTree, books: Seq<bool>, documents: Seq<bool>)
    requires
        forall|i: int| 0 <= i < books.len() ==> !#[trigger] books[i],
        forall|i: int| 0 <= i < documents.len() ==> !#[trigger] documents[i],
    ensures
        split_data(t, books, documents) == t,
{
    lemma_unwritten_member(t, "books"@, books);
    lemma_unwritten_member(t, "documents"@, documents);
}

/// Where no write succeeds, a member's entries do not change.
proof fn lemma_unwritten_member(t: JsonTree, key: Seq<char>, written: Seq<bool>)
    requires
        forall|i: int| 0 <= i < written.len() ==> !#[trigger] written[i],
    ensures
        split_member(t, key, written) == t,
{
    if let JsonTree::Object(m) = t {
        if let Some(items) = t.items_at(key) {
            lemma_unwritten_items(items, written);
            assert(m.insert(key, JsonTree::Array(items)) =~= m);
        }
    }
}

/// Where no write succeeds, entries do not change.
proof fn lemma_unwritten_items(items: Seq<JsonTree>, written: Seq<bool>)
    requires
        forall|i: int| 0 <= i < written.len() ==> !#[trigger] written[i],
    ensures
        split_items(items, written) == items,
    decreases items.len(),
{
    if items.len() > 0 {
        lemma_unwritten_items(items.drop_last(), written);
        assert(items.drop_last().push(items.last()) =~= items);
    }
}

/// Where every write succeeds, no content is left to write.
pub proof fn law_all_written(t: JsonTree, books: Seq<bool>, documents: Seq<bool>)
    requires
        books.len() == contents_of(entries(t, "books"@), "book"@).len(),
        documents.len() == contents_of(entries(t, "documents"@), "doc"@).len(),
        forall|i: int| 0 <= i < books.len() ==> #[trigger] books[i],
        forall|i: int| 0 <= i < documents.len() ==> #[trigger] documents[i],
    ensures
        contents_of(entries(split_data(t, books, documents), "books"@), "book"@) == Seq::<
            ContentText,
        >::empty(),
        contents_of(entries(split_data(t, books, documents), "documents"@), "doc"@) == Seq::<
            ContentText,
        >::empty(),
{
    reveal_strlit("books");
    reveal_strlit("documents");
    assert("books"@[0] == 'b' && "documents"@[0] == 'd');
    let once = split_member(t, "books"@, books);
    let twice = split_member(once, "documents"@, documents);
    assert(entries(once, "documents"@) == entries(t, "documents"@));
    assert(entries(twice, "books"@) == entries(once, "books"@));
    lemma_all_written_items(entries(t, "books"@), "book"@, books);
    lemma_all_written_items(entries(t, "documents"@), "doc"@, documents);
}

/// Where every write succeeds, no content is left among the entries.
proof fn lemma_all_written_items(items: Seq<JsonTree>, kind: Seq<char>, written: Seq<bool>)
    requires
        written.len() >= contents_of(items, kind).len(),
        forall|i: int| 0 <= i < written.len() ==> #[trigger] written[i],
    ensures
        contents_of(split_items(items, written), kind) == Seq::<ContentText>::empty(),
    decreases items.len(),
{
    if items.len() > 0 {
        let front = items.drop_last();
        let last = items.last();
        lemma_all_written_items(front, kind, written);
        lemma_contents_count(front, kind, Seq::empty());
        let all = split_items(items, written);
        assert(all.drop_last() =~= split_items(front, written));
        if has_content(last) {
            law_split_item(last, Seq::empty());
            let k = contents_of(front, Seq::empty()).len() as int;
            assert(written[k]);
        }
    }
}

/// A document that can be stored can be stored with its contents split off.
pub proof fn law_split_storable(
    t: JsonTree,
    books: Seq<bool>,
    documents: Seq<bool>,
    levels: nat,
)
    requires
        crate::codec::storable(t, levels),
    ensures
        crate::codec::storable(split_data(t, books, documents), levels),
{
    lemma_split_member_storable(t, "books"@, books, levels);
    lemma_split_member_storable(
        split_member(t, "books"@, books),
        "documents"@,
        documents,
        levels,
    );
}

/// Splitting the entries of one member keeps a document storable.
proof fn lemma_split_member_storable(t: JsonTree, key: Seq<char>, written: Seq<bool>, levels: nat)
    requires
        crate::codec::storable(t, levels),
    ensures
        crate::codec::storable(split_member(t, key, written), levels),
{
    if let JsonTree::Object(m) = t {
        if let Some(items) = t.items_at(key) {
            let inner = (levels - 1) as nat;
            let split = JsonTree::Array(split_items(items, written));
            assert(crate::codec::storable(m[key], inner));
            lemma_split_items_storable(items, written, (inner - 1) as nat);
            let n = m.insert(key, split);
            assert(m.dom().contains(key));
            assert forall|k: Seq<char>| n.dom().contains(k) implies crate::codec::storable(
                #[trigger] n[k],
                inner,
            ) by {
                if k != key {
                    assert(n[k] == m[k]);
                }
            }
        }
    }
}

/// Splitting contents off keeps entries storable.
proof fn lemma_split_items_storable(items: Seq<JsonTree>, written: Seq<bool>, levels: nat)
    requires
        forall|i: int| 0 <= i < items.len() ==> crate::codec::storable(#[trigger] items[i], levels),
    ensures
        split_items(items, written).len() == items.len(),
        forall|i: int|
            0 <= i < items.len() ==> crate::codec::storable(
                #[trigger] split_items(items, written)[i],
                levels,
            ),
    decreases items.len(),
{
    if items.len() > 0 {
        let front = items.drop_last();
        assert forall|i: int| 0 <= i < front.len() implies crate::codec::storable(
            #[trigger] front[i],
            levels,
        ) by {
            assert(front[i] == items[i]);
        }
        lemma_split_items_storable(front, written, levels);
        let last = items[items.len() - 1];
        assert(crate::codec::storable(last, levels));
        lemma_split_item_storable(last, levels);
        let all = split_items(items, written);
        assert forall|i: int| 0 <= i < items.len() implies crate::codec::storable(
            #[trigger] all[i],
            levels,
        ) by {
            if i < front.len() {
                assert(all[i] == split_items(front, written)[i]);
            }
        }
    }
}

/// Splitting its content off keeps an entry storable.
proof fn lemma_split_item_storable(item: JsonTree, levels: nat)
    requires
        crate::codec::storable(item, levels),
    ensures
        crate::codec::storable(split_item(item), levels),
{
    if let JsonTree::Object(m) = item {
        let inner = (levels - 1) as nat;
        let a = JsonTree::Text(preview_of(item.text_or_empty("content"@)));
        let b = JsonTree::Text(Seq::empty());
        let n = m.insert("preview"@, a).insert("content"@, b);
        assert forall|k: Seq<char>| n.dom().contains(k) implies crate::codec::storable(
            #[trigger] n[k],
            inner,
        ) by {
            if k != "preview"@ && k != "content"@ {
                assert(n[k] == m[k]);
            }
        }
    }
}

/// Only what came from a backup is reported as restored, and nothing is reported as
/// restored without data.
pub proof fn law_restored_only_from_backup(exists: bool, raw: Option<Seq<char>>)
    ensures
        match load_step(exists, raw) {
            LoadStepModel::Done(r) => !r.restored,
            LoadStepModel::Restore => exists && raw is Some && document_in(raw) is None,
        },
{
}

/// The content files, by name, after an attempt to write the contents in their order,
/// where `written[k]` says whether the content at `k` was written.
pub open spec fn files_after(
    files: Map<Seq<char>, Seq<char>>,
    contents: Seq<ContentText>,
    written: Seq<bool>,
) -> Map<Seq<char>, Seq<char>>
    decreases contents.len(),
{
    if contents.len() == 0 {
        files
    } else {
        let k = contents.len() - 1;
        let before = files_after(files, contents.drop_last(), written);
        if k < written.len() && written[k] {
            before.insert(
                crate::names::content_name(contents[k].kind, contents[k].id),
                contents[k].content,
            )
        } else {
            before
        }
    }
}

/// A content of a book or a document that was written is in its file whole, as long as
/// no later entry of the same kind has the same id.
pub proof fn law_written_content_found(
    files: Map<Seq<char>, Seq<char>>,
    contents: Seq<ContentText>,
    written: Seq<bool>,
    k: int,
)
    requires
        0 <= k < contents.len(),
        k < written.len(),
        written[k],
        forall|j: int|
            0 <= j < contents.len() ==> (#[trigger] contents[j]).kind == "book"@
                || contents[j].kind == "doc"@,
        forall|j: int|
            k < j < contents.len() ==> (#[trigger] contents[j]).kind != contents[k].kind
                || contents[j].id != contents[k].id,
    ensures
        ({
            let name = crate::names::content_name(contents[k].kind, contents[k].id);
            let after = files_after(files, contents, written);
            after.dom().contains(name) && after[name] == contents[k].content
        }),
    decreases contents.len(),
{
    let last = contents.len() - 1;
    if k < last {
        let front = contents.drop_last();
        let a = contents[k];
        let b = contents[last];
        assert forall|j: int| 0 <= j < front.len() implies (#[trigger] front[j]).kind == "book"@
            || front[j].kind == "doc"@ by {
            assert(front[j] == contents[j]);
        }
        assert forall|j: int| k < j < front.len() implies (#[trigger] front[j]).kind
            != front[k].kind || front[j].id != front[k].id by {
            assert(front[j] == contents[j]);
        }
        law_written_content_found(files, front, written, k);
        assert(b.kind != a.kind || b.id != a.id);
        if a.kind == b.kind {
            crate::names::law_content_names_differ(a.kind, b.id, a.id);
        } else {
            crate::names::law_kinds_differ(a.id, b.id);
            crate::names::law_kinds_differ(b.id, a.id);
        }
    }
}

/// How many contents come before that of the entry at `i`.
pub open spec fn content_index(items: Seq<JsonTree>, i: int) -> int {
    contents_of(items.take(i), Seq::empty()).len() as int
}

/// Whether the entry at `i` has a content and it was written.
pub open spec fn entry_written(items: Seq<JsonTree>, written: Seq<bool>, i: int) -> bool {
    let k = content_index(items, i);
    0 <= i < items.len() && has_content(items[i]) && k < written.len() && written[k]
}

/// Whether no entry after the one at `i` has a content under its id.
pub open spec fn last_of_its_id(items: Seq<JsonTree>, i: int) -> bool {
    forall|j: int|
        i < j < items.len() && has_content(#[trigger] items[j]) ==> items[j].text_or_empty("id"@)
            != items[i].text_or_empty("id"@)
}

/// The contents of entries hold that of each entry in its place, and those behind it
/// have other ids where the entries behind it have.
proof fn lemma_content_at(items: Seq<JsonTree>, kind: Seq<char>, i: int)
    requires
        0 <= i < items.len(),
        has_content(items[i]),
        last_of_its_id(items, i),
    ensures
        ({
            let c = contents_of(items, kind);
            let k = content_index(items, i);
            &&& 0 <= k < c.len()
            &&& c[k] == (ContentText {
                kind,
                id: items[i].text_or_empty("id"@),
                content: items[i].text_or_empty("content"@),
            })
            &&& forall|j: int|
                k < j < c.len() ==> (#[trigger] c[j]).id != items[i].text_or_empty("id"@)
        }),
    decreases items.len(),
{
    let front = items.drop_last();
    if i == items.len() - 1 {
        assert(items.take(i) =~= front);
        lemma_contents_count(front, kind, Seq::empty());
    } else {
        assert(front.take(i) =~= items.take(i));
        assert forall|j: int| i < j < front.len() && has_content(
            #[trigger] front[j],
        ) implies front[j].text_or_empty("id"@) != front[i].text_or_empty("id"@) by {
            assert(front[j] == items[j]);
        }
        lemma_content_at(front, kind, i);
        let last = items[items.len() - 1];
        if has_content(last) {
            let c = contents_of(items, kind);
            let f = contents_of(front, kind);
            assert(c =~= f.push(c.last()));
        }
    }
}

/// The contents of entries are all of one kind.
proof fn lemma_one_kind(items: Seq<JsonTree>, kind: Seq<char>)
    ensures
        forall|j: int|
            0 <= j < contents_of(items, kind).len() ==> (#[trigger] contents_of(items, kind)[j]).kind
                == kind,
    decreases items.len(),
{
    if items.len() > 0 {
        lemma_one_kind(items.drop_last(), kind);
        let front = contents_of(items.drop_last(), kind);
        let all = contents_of(items, kind);
        assert forall|j: int| 0 <= j < all.len() implies (#[trigger] all[j]).kind == kind by {
            if j < front.len() {
                assert(all[j] == front[j]);
            }
        }
    }
}

/// Writing contents touches no file of another name.
proof fn lemma_other_file_kept(
    files: Map<Seq<char>, Seq<char>>,
    contents: Seq<ContentText>,
    written: Seq<bool>,
    name: Seq<char>,
)
    requires
        forall|j: int|
            0 <= j < contents.len() ==> crate::names::content_name(
                (#[trigger] contents[j]).kind,
                contents[j].id,
            ) != name,
    ensures
        files_after(files, contents, written).dom().contains(name) == files.dom().contains(name),
        files_after(files, contents, written)[name] == files[name],
    decreases contents.len(),
{
    if contents.len() > 0 {
        let front = contents.drop_last();
        assert forall|j: int| 0 <= j < front.len() implies crate::names::content_name(
            (#[trigger] front[j]).kind,
            front[j].id,
        ) != name by {
            assert(front[j] == contents[j]);
        }
        lemma_other_file_kept(files, front, written, name);
        let last = contents[contents.len() - 1];
        assert(crate::names::content_name(last.kind, last.id) != name);
    }
}

/// An entry whose content was written is split.
proof fn lemma_written_entry_split(items: Seq<JsonTree>, written: Seq<bool>, i: int)
    requires
        entry_written(items, written, i),
    ensures
        split_items(items, written).len() == items.len(),
        split_items(items, written)[i] == split_item(items[i]),
    decreases items.len(),
{
    let front = items.drop_last();
    lemma_split_length(front, written);
    if i == items.len() - 1 {
        assert(items.take(i) =~= front);
    } else {
        assert(front.take(i) =~= items.take(i));
        lemma_written_entry_split(front, written, i);
    }
}

/// Splitting keeps the number of entries.
proof fn lemma_split_length(items: Seq<JsonTree>, written: Seq<bool>)
    ensures
        split_items(items, written).len() == items.len(),
    decreases items.len(),
{
    if items.len() > 0 {
        lemma_split_length(items.drop_last(), written);
    }
}

/// The content files once the contents of a document were written, or not: those of the
/// books, and then those of the documents.
pub open spec fn files_saved(
    files: Map<Seq<char>, Seq<char>>,
    t: JsonTree,
    books: Seq<bool>,
    documents: Seq<bool>,
) -> Map<Seq<char>, Seq<char>> {
    files_after(
        files_after(files, contents_of(entries(t, "books"@), "book"@), books),
        contents_of(entries(t, "documents"@), "doc"@),
        documents,
    )
}

/// A book whose content was written keeps a preview of it in what is saved, and its file
/// holds the content whole, as long as no later book with a content has the same id.
pub proof fn law_book_content_found(
    files: Map<Seq<char>, Seq<char>>,
    t: JsonTree,
    books: Seq<bool>,
    documents: Seq<bool>,
    i: int,
)
    requires
        entry_written(entries(t, "books"@), books, i),
        last_of_its_id(entries(t, "books"@), i),
    ensures
        ({
            let book = entries(t, "books"@)[i];
            let name = crate::names::content_name("book"@, book.text_or_empty("id"@));
            let after = files_saved(files, t, books, documents);
            &&& after.dom().contains(name)
            &&& after[name] == book.text_or_empty("content"@)
            &&& entries(split_data(t, books, documents), "books"@)[i] == split_item(book)
        }),
{
    let items = entries(t, "books"@);
    let contents = contents_of(items, "book"@);
    let later = contents_of(entries(t, "documents"@), "doc"@);
    let id = items[i].text_or_empty("id"@);
    lemma_content_at(items, "book"@, i);
    lemma_one_kind(items, "book"@);
    lemma_one_kind(entries(t, "documents"@), "doc"@);
    law_written_content_found(files, contents, books, content_index(items, i));
    assert forall|j: int| 0 <= j < later.len() implies crate::names::content_name(
        (#[trigger] later[j]).kind,
        later[j].id,
    ) != crate::names::content_name("book"@, id) by {
        crate::names::law_kinds_differ(id, later[j].id);
    }
    lemma_other_file_kept(
        files_after(files, contents, books),
        later,
        documents,
        crate::names::content_name("book"@, id),
    );
    lemma_written_entry_split(items, books, i);
    reveal_strlit("books");
    reveal_strlit("documents");
    assert("books"@[0] == 'b' && "documents"@[0] == 'd');
}

/// A document whose content was written keeps a preview of it in what is saved, and its
/// file holds the content whole, as long as no later document with a content has the same
/// id.
pub proof fn law_document_content_found(
    files: Map<Seq<char>, Seq<char>>,
    t: JsonTree,
    books: Seq<bool>,
    documents: Seq<bool>,
    i: int,
)
    requires
        entry_written(entries(t, "documents"@), documents, i),
        last_of_its_id(entries(t, "documents"@), i),
    ensures
        ({
            let document = entries(t, "documents"@)[i];
            let name = crate::names::content_name("doc"@, document.text_or_empty("id"@));
            let after = files_saved(files, t, books, documents);
            &&& after.dom().contains(name)
            &&& after[name] == document.text_or_empty("content"@)
            &&& entries(split_data(t, books, documents), "documents"@)[i] == split_item(document)
        }),
{
    let items = entries(t, "documents"@);
    let contents = contents_of(items, "doc"@);
    lemma_content_at(items, "doc"@, i);
    lemma_one_kind(items, "doc"@);
    law_written_content_found(
        files_after(files, contents_of(entries(t, "books"@), "book"@), books),
        contents,
        documents,
        content_index(items, i),
    );
    lemma_written_entry_split(items, documents, i);
    reveal_strlit("books");
    reveal_strlit("documents");
    assert("books"@[0] == 'b' && "documents"@[0] == 'd');
}

} // verus!
