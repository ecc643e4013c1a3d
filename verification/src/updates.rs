//! Updates: which of two versions is newer, and what a description of the latest
//! release offers.
use crate::json::{Json, JsonTree};
use crate::text::{ends_with, parse_u64, split, trim_leading};
use vstd::prelude::*;
use vstd::string::*;

verus! {

/// The number in one piece of a version, or 0 where it is none of 64 bits.
pub open spec fn piece_number(p: Seq<char>) -> nat {
    match crate::text::unsigned_number(p, u64::MAX as nat) {
        Some(n) => n,
        None => 0,
    }
}

/// The numbers of a version: those between its dots, without any leading `v`.
pub open spec fn version_numbers(s: Seq<char>) -> Seq<nat> {
    crate::text::pieces(crate::text::without_leading(s, 'v'), '.').map_values(
        |p: Seq<char>| piece_number(p),
    )
}

/// Number `i` of a version, which is 0 behind its end.
pub open spec fn number_at(v: Seq<nat>, i: int) -> nat {
    if 0 <= i < v.len() {
        v[i]
    } else {
        0
    }
}

/// Whether the numbers `a` and `b` first differ at `i`, and `a` has the greater there.
pub open spec fn exceeds_at(a: Seq<nat>, b: Seq<nat>, i: int) -> bool {
    &&& 0 <= i
    &&& number_at(a, i) > number_at(b, i)
    &&& forall|j: int| 0 <= j < i ==> #[trigger] number_at(a, j) == number_at(b, j)
}

/// Whether the version `a` is newer than the version `b`.
pub open spec fn newer(a: Seq<char>, b: Seq<char>) -> bool {
    exists|i: int| exceeds_at(version_numbers(a), version_numbers(b), i)
}

/// The numbers of a version.
fn numbers_of(s: &str) -> (r: Vec<u64>)
    ensures
        r@.len() == version_numbers(s@).len(),
        forall|i: int| 0 <= i < r@.len() ==> #[trigger] r@[i] == version_numbers(s@)[i],
{
    let trimmed = trim_leading(s, 'v');
    let parts = split(trimmed.as_str(), '.');
    let ghost t = crate::text::texts(parts@);
    let mut r: Vec<u64> = Vec::new();
    let mut i: usize = 0;
    while i < parts.len()
        invariant
            i <= parts@.len(),
            r@.len() == i,
            t == crate::text::texts(parts@),
            t == crate::text::pieces(crate::text::without_leading(s@, 'v'), '.'),
            forall|k: int| 0 <= k < i ==> #[trigger] r@[k] == version_numbers(s@)[k],
        decreases parts@.len() - i,
    {
        assert(t[i as int] == parts@[i as int]@);
        let n: u64 = match parse_u64(parts[i].as_str()) {
            Some(n) => n,
            None => 0,
        };
        r.push(n);
        i = i + 1;
    }
    r
}

/// Whether the version `a` is newer than the version `b`. Versions are compared
/// number by number; a missing number, and a piece that is none, count as 0.
pub fn version_newer(a: &str, b: &str) -> (r: bool)
    ensures
        r == newer(a@, b@),
{
    let av = numbers_of(a);
    let bv = numbers_of(b);
    let ghost p = version_numbers(a@);
    let ghost q = version_numbers(b@);
    let n: usize = if av.len() > bv.len() {
        av.len()
    } else {
        bv.len()
    };
    let mut i: usize = 0;
    while i < n
        invariant
            i <= n,
            n >= av@.len(),
            n >= bv@.len(),
            p == version_numbers(a@),
            q == version_numbers(b@),
            av@.len() == p.len(),
            bv@.len() == q.len(),
            forall|k: int| 0 <= k < av@.len() ==> #[trigger] av@[k] == p[k],
            forall|k: int| 0 <= k < bv@.len() ==> #[trigger] bv@[k] == q[k],
            forall|j: int| 0 <= j < i ==> #[trigger] number_at(p, j) == number_at(q, j),
        decreases n - i,
    {
        let x: u64 = if i < av.len() {
            av[i]
        } else {
            0
        };
        let y: u64 = if i < bv.len() {
            bv[i]
        } else {
            0
        };
        assert(x == number_at(p, i as int));
        assert(y == number_at(q, i as int));
        if x != y {
            proof {
                if x > y {
                    assert(exceeds_at(p, q, i as int));
                } else {
                    assert forall|k: int| !exceeds_at(p, q, k) by {
                        if exceeds_at(p, q, k) {
                            if k < i {
                                assert(number_at(p, k) == number_at(q, k));
                            } else if k > i {
                                assert(number_at(p, i as int) == number_at(q, i as int));
                            }
                        }
                    }
                }
            }
            return x > y;
        }
        i = i + 1;
    }
    assert forall|k: int| !exceeds_at(p, q, k) by {
        if 0 <= k < n {
            assert(number_at(p, k) == number_at(q, k));
        }
    }
    false
}

/// What an update offers.
pub struct UpdateInfo {
    pub has_update: bool,
    pub current_version: String,
    pub latest_version: String,
    pub download_url: String,
    pub html_url: String,
    pub notes: String,
    pub file_name: String,
}

/// Whether a release's file is an installer, by its name.
pub open spec fn is_installer(asset: JsonTree) -> bool {
    let name = asset.text_or_empty("name"@);
    crate::text::has_suffix(name, ".exe"@) || crate::text::has_suffix(name, ".msi"@)
}

/// The first installer among the files from position `from` on.
pub open spec fn first_installer(assets: Seq<JsonTree>, from: int) -> Option<JsonTree>
    decreases assets.len() - from,
{
    if from < 0 || from >= assets.len() {
        None
    } else if is_installer(assets[from]) {
        Some(assets[from])
    } else {
        first_installer(assets, from + 1)
    }
}

/// The installer that a release offers.
pub open spec fn offered(release: JsonTree) -> Option<JsonTree> {
    match release.items_at("assets"@) {
        Some(assets) => first_installer(assets, 0),
        None => None,
    }
}

/// The text member of the installer, or the empty text where there is no installer.
pub open spec fn installer_text(installer: Option<JsonTree>, key: Seq<char>) -> Seq<char> {
    match installer {
        Some(a) => a.text_or_empty(key),
        None => Seq::empty(),
    }
}

/// The version that a release names, without any leading `v`.
pub open spec fn release_version(release: JsonTree) -> Seq<char> {
    crate::text::without_leading(release.text_or_empty("tag_name"@), 'v')
}

/// What the description of the latest release offers to a program of the version
/// `current_version`.
pub fn update_info(current_version: String, release: &Json) -> (r: UpdateInfo)
    ensures
        r.current_version@ == current_version@,
        r.latest_version@ == release_version(release@),
        r.html_url@ == release@.text_or_empty("html_url"@),
        r.notes@ == release@.text_or_empty("body"@),
        r.download_url@ == installer_text(offered(release@), "browser_download_url"@),
        r.file_name@ == installer_text(offered(release@), "name"@),
        r.has_update == (release_version(release@).len() > 0 && newer(
            release_version(release@),
            current_version@,
        )),
{
    let tag = release.str_or_empty("tag_name");
    let latest_version = trim_leading(tag.as_str(), 'v');
    let html_url = release.str_or_empty("html_url");
    let notes = release.str_or_empty("body");
    let mut download_url = String::new();
    let mut file_name = String::new();
    if let Some(assets) = release.array_at("assets") {
        let ghost t = crate::json::trees(assets@);
        let mut i: usize = 0;
        let mut found = false;
        while i < assets.len() && !found
            invariant
                i <= assets@.len(),
                t == crate::json::trees(assets@),
                !found ==> first_installer(t, 0) == first_installer(t, i as int),
                !found ==> download_url@ == Seq::<char>::empty() && file_name@ == Seq::<
                    char,
                >::empty(),
                found ==> download_url@ == installer_text(
                    first_installer(t, 0),
                    "browser_download_url"@,
                ) && file_name@ == installer_text(first_installer(t, 0), "name"@),
            decreases assets@.len() - i,
        {
            assert(t[i as int] == assets@[i as int]@);
            let name = assets[i].str_or_empty("name");
            if ends_with(name.as_str(), ".exe") || ends_with(name.as_str(), ".msi") {
                download_url = assets[i].str_or_empty("browser_download_url");
                file_name = name;
                found = true;
            }
            i = i + 1;
        }
    }
    let has_update = !latest_version.as_str().is_empty() && version_newer(
        latest_version.as_str(),
        current_version.as_str(),
    );
    UpdateInfo {
        has_update,
        current_version,
        latest_version,
        download_url,
        html_url,
        notes,
        file_name,
    }
}

/// No version is newer than itself.
pub proof fn law_newer_irreflexive(a: Seq<char>)
    ensures
        !newer(a, a),
{
}

/// Of two versions at most one is newer than the other.
pub proof fn law_newer_asymmetric(a: Seq<char>, b: Seq<char>)
    requires
        newer(a, b),
    ensures
        !newer(b, a),
{
    let p = version_numbers(a);
    let q = version_numbers(b);
    let i = choose|i: int| exceeds_at(p, q, i);
    assert forall|k: int| !exceeds_at(q, p, k) by {
        if exceeds_at(q, p, k) {
            if k < i {
                assert(number_at(p, k) == number_at(q, k));
            } else if i < k {
                assert(number_at(q, i) == number_at(p, i));
            }
        }
    }
}

/// A version newer than a newer one is newer.
pub proof fn law_newer_transitive(a: Seq<char>, b: Seq<char>, c: Seq<char>)
    requires
        newer(a, b),
        newer(b, c),
    ensures
        newer(a, c),
{
    let p = version_numbers(a);
    let q = version_numbers(b);
    let r = version_numbers(c);
    let i = choose|i: int| exceeds_at(p, q, i);
    let k = choose|k: int| exceeds_at(q, r, k);
    let m = if i < k {
        i
    } else {
        k
    };
    assert forall|j: int| 0 <= j < m implies #[trigger] number_at(p, j) == number_at(r, j) by {
        assert(number_at(p, j) == number_at(q, j));
        assert(number_at(q, j) == number_at(r, j));
    }
    if i < k {
        assert(number_at(q, i) == number_at(r, i));
    } else if k < i {
        assert(number_at(p, k) == number_at(q, k));
    }
    assert(exceeds_at(p, r, m));
}

/// Two versions of which neither is newer have the same numbers, where a missing one
/// counts as 0.
pub proof fn law_newer_total(a: Seq<char>, b: Seq<char>)
    requires
        !newer(a, b),
        !newer(b, a),
    ensures
        forall|i: int|
            #[trigger] number_at(version_numbers(a), i) == number_at(version_numbers(b), i),
{
    let p = version_numbers(a);
    let q = version_numbers(b);
    assert forall|i: int| #[trigger] number_at(p, i) == number_at(q, i) by {
        lemma_same_below(p, q, i + 1);
        if i >= 0 {
            assert(number_at(p, i) == number_at(q, i));
        }
    }
}

/// Numbers of which neither exceeds the other agree below any position.
proof fn lemma_same_below(p: Seq<nat>, q: Seq<nat>, n: int)
    requires
        forall|i: int| !exceeds_at(p, q, i),
        forall|i: int| !exceeds_at(q, p, i),
    ensures
        forall|j: int| 0 <= j < n ==> #[trigger] number_at(p, j) == number_at(q, j),
    decreases n,
{
    if n > 0 {
        lemma_same_below(p, q, n - 1);
        assert(!exceeds_at(p, q, n - 1));
        assert(!exceeds_at(q, p, n - 1));
        assert forall|j: int| 0 <= j < n - 1 implies #[trigger] number_at(q, j) == number_at(
            p,
            j,
        ) by {
            assert(number_at(p, j) == number_at(q, j));
        }
        assert(number_at(p, n - 1) == number_at(q, n - 1));
    }
}

/// A leading `v` makes no difference.
pub proof fn law_leading_v(a: Seq<char>, b: Seq<char>)
    ensures
        newer(seq!['v'] + a, b) == newer(a, b),
        newer(a, seq!['v'] + b) == newer(a, b),
{
    assert((seq!['v'] + a).skip(1) =~= a);
    assert((seq!['v'] + b).skip(1) =~= b);
    assert(version_numbers(seq!['v'] + a) == version_numbers(a));
    assert(version_numbers(seq!['v'] + b) == version_numbers(b));
}

/// An installer that a release offers is one of its files, and an installer by its
/// name; a release that offers none has none.
pub proof fn law_offered(release: JsonTree, assets: Seq<JsonTree>)
    requires
        release.items_at("assets"@) == Some(assets),
    ensures
        match offered(release) {
            Some(a) => assets.contains(a) && is_installer(a),
            None => forall|i: int| 0 <= i < assets.len() ==> !is_installer(#[trigger] assets[i]),
        },
{
    lemma_first_installer(assets, 0);
}

/// The first installer from a position on is an installer there; where there is none,
/// no file from there on is one.
proof fn lemma_first_installer(assets: Seq<JsonTree>, from: int)
    requires
        0 <= from,
    ensures
        match first_installer(assets, from) {
            Some(a) => assets.contains(a) && is_installer(a),
            None => forall|i: int|
                from <= i < assets.len() ==> !is_installer(#[trigger] assets[i]),
        },
    decreases assets.len() - from,
{
    if from < assets.len() {
        if is_installer(assets[from]) {
            assert(assets.contains(assets[from]));
        } else {
            lemma_first_installer(assets, from + 1);
        }
    }
}

} // verus!
