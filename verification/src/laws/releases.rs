//! Laws on updates: which file of a release is offered, and which version is newer.
use crate::json::JsonTree;
use vstd::prelude::*;

verus! {

/// Whether the last four characters of a name are those of an installer.
pub open spec fn ends_as_installer(name: Seq<char>) -> bool {
    let n = name.len() as int;
    n >= 4 && name[n - 4] == '.' && ((name[n - 3] == 'e' && name[n - 2] == 'x' && name[n - 1]
        == 'e') || (name[n - 3] == 'm' && name[n - 2] == 's' && name[n - 1] == 'i'))
}

/// Whether a file of a release has such a name.
pub open spec fn named_as_installer(asset: JsonTree) -> bool {
    exists|x: Seq<char>| #[trigger]
        crate::laws::holds_text(asset, "name"@, x) && ends_as_installer(x)
}

/// A file is an installer exactly where the last four characters of its name say so.
proof fn lemma_installer(asset: JsonTree)
    ensures
        crate::updates::is_installer(asset) == named_as_installer(asset),
        crate::updates::is_installer(asset) ==> crate::laws::holds_text(
            asset,
            "name"@,
            asset.text_or_empty("name"@),
        ) && ends_as_installer(asset.text_or_empty("name"@)),
{
    reveal_strlit(".exe");
    reveal_strlit(".msi");
    let name = asset.text_or_empty("name"@);
    crate::laws::documents::law_text_or_empty(asset, "name"@, name);
    lemma_four(name, ".exe"@);
    lemma_four(name, ".msi"@);
    if named_as_installer(asset) {
        let x = choose|x: Seq<char>| #[trigger]
            crate::laws::holds_text(asset, "name"@, x) && ends_as_installer(x);
        assert(x == name);
    }
    if crate::updates::is_installer(asset) {
        assert(name.len() > 0);
        assert(crate::laws::holds_text(asset, "name"@, name));
    }
}

/// A text ends with four characters exactly where its last four are those.
proof fn lemma_four(s: Seq<char>, four: Seq<char>)
    requires
        four.len() == 4,
    ensures
        ({
            let n = s.len() as int;
            crate::text::has_suffix(s, four) == (n >= 4 && s[n - 4] == four[0] && s[n - 3]
                == four[1] && s[n - 2] == four[2] && s[n - 1] == four[3])
        }),
{
    let n = s.len() as int;
    if n >= 4 {
        let end = s.skip(n - 4);
        assert(end[0] == s[n - 4] && end[1] == s[n - 3] && end[2] == s[n - 2] && end[3] == s[n
            - 1]);
        if s[n - 4] == four[0] && s[n - 3] == four[1] && s[n - 2] == four[2] && s[n - 1]
            == four[3] {
            assert(end =~= four);
        }
    }
}

/// The file that is offered is the first of the release whose name ends in `.exe` or
/// `.msi`, under its whole name and its own address; where no name ends so, or the release
/// has no files, none is offered.
pub proof fn law_installer(release: JsonTree, assets: Seq<JsonTree>)
    ensures
        ({
            let file = crate::updates::installer_text(
                crate::updates::offered(release),
                "name"@,
            );
            let url = crate::updates::installer_text(
                crate::updates::offered(release),
                "browser_download_url"@,
            );
            &&& file.len() > 0 ==> ends_as_installer(file)
            &&& crate::laws::holds(release, "assets"@, JsonTree::Array(assets)) && file.len() > 0
                ==> exists|k: int|
                {
                    &&& 0 <= k < assets.len()
                    &&& crate::laws::holds_text(#[trigger] assets[k], "name"@, file)
                    &&& crate::laws::text_or_nothing(assets[k], "browser_download_url"@, url)
                    &&& forall|j: int| 0 <= j < k ==> !named_as_installer(#[trigger] assets[j])
                }
            &&& crate::laws::holds(release, "assets"@, JsonTree::Array(assets)) && (exists|j: int|
                0 <= j < assets.len() && named_as_installer(#[trigger] assets[j])) ==> file.len()
                > 0
            &&& file.len() == 0 ==> url.len() == 0
            &&& (forall|x: Seq<JsonTree>| !#[trigger] crate::laws::holds(
                release,
                "assets"@,
                JsonTree::Array(x),
            )) ==> file.len() == 0
        }),
{
    let file = crate::updates::installer_text(crate::updates::offered(release), "name"@);
    let url = crate::updates::installer_text(
        crate::updates::offered(release),
        "browser_download_url"@,
    );
    if release.items_at("assets"@) is Some {
        let list = release.items_at("assets"@)->0;
        assert(crate::laws::holds(release, "assets"@, JsonTree::Array(list)));
        let k = lemma_first(list, 0);
        if k < list.len() {
            lemma_installer(list[k]);
            crate::laws::documents::law_text_or_empty(list[k], "browser_download_url"@, url);
            assert(crate::laws::holds_text(list[k], "name"@, file));
        }
    }
}

/// The first installer among the files from a position on, by its position.
proof fn lemma_first(assets: Seq<JsonTree>, from: int) -> (k: int)
    requires
        0 <= from <= assets.len(),
    ensures
        from <= k <= assets.len(),
        forall|j: int| from <= j < k ==> !named_as_installer(#[trigger] assets[j]),
        k < assets.len() ==> named_as_installer(assets[k]),
        crate::updates::first_installer(assets, from) == (if k < assets.len() {
            Some(assets[k])
        } else {
            None
        }),
    decreases assets.len() - from,
{
    if from == assets.len() {
        from
    } else {
        lemma_installer(assets[from]);
        if crate::updates::is_installer(assets[from]) {
            from
        } else {
            lemma_first(assets, from + 1)
        }
    }
}

/// The version of a release is its tag without the characters `v` that it begins with.
pub proof fn law_release_version(release: JsonTree, tag: Seq<char>)
    requires
        crate::laws::text_or_nothing(release, "tag_name"@, tag),
    ensures
        ({
            let r = crate::updates::release_version(release);
            let n = tag.len() - r.len();
            &&& 0 <= n
            &&& r == tag.skip(n)
            &&& forall|i: int| 0 <= i < n ==> #[trigger] tag[i] == 'v'
            &&& r.len() > 0 ==> r[0] != 'v'
        }),
{
    crate::laws::documents::law_text_or_empty(release, "tag_name"@, tag);
    crate::laws::numbers::law_trimmed(tag, 'v');
}

/// The text of a version with those numbers.
pub open spec fn version_text(v: Seq<nat>) -> Seq<char>
    decreases v.len(),
{
    if v.len() <= 1 {
        crate::text::decimal(v[0])
    } else {
        crate::text::decimal(v[0]) + seq!['.'] + version_text(v.skip(1))
    }
}

/// Number `i` of a version, and 0 behind its end.
pub open spec fn number_or_zero(v: Seq<nat>, i: int) -> nat {
    if i < v.len() {
        v[i]
    } else {
        0
    }
}

/// Whether all numbers fit into 64 bits.
pub open spec fn fits(v: Seq<nat>) -> bool {
    v.len() > 0 && forall|i: int| 0 <= i < v.len() ==> #[trigger] v[i] <= u64::MAX
}

/// The numbers of a version are read as they are written.
proof fn lemma_version_read(v: Seq<nat>)
    requires
        fits(v),
    ensures
        version_text(v).len() > 0,
        version_text(v)[0] != 'v',
        crate::text::pieces(version_text(v), '.').len() == v.len(),
        forall|i: int|
            0 <= i < v.len() ==> crate::updates::piece_number(
                #[trigger] crate::text::pieces(version_text(v), '.')[i],
            ) == v[i],
    decreases v.len(),
{
    let a = crate::text::decimal(v[0]);
    crate::laws::numbers::law_decimal(v[0]);
    crate::laws::numbers::law_unsigned(a, u64::MAX as nat, v[0]);
    assert('0' <= a[0] <= '9');
    assert(!a.contains('.')) by {
        if a.contains('.') {
            let i = choose|i: int| 0 <= i < a.len() && a[i] == '.';
            assert('0' <= a[i] <= '9');
        }
    }
    let rest = v.skip(1);
    if v.len() > 1 {
        assert forall|i: int| 0 <= i < rest.len() implies #[trigger] rest[i] <= u64::MAX by {
            assert(rest[i] == v[i + 1]);
        }
        lemma_version_read(rest);
        crate::laws::numbers::law_split(a, version_text(rest), '.');
        let p = crate::text::pieces(version_text(v), '.');
        let q = crate::text::pieces(version_text(rest), '.');
        assert forall|i: int| 0 <= i < v.len() implies crate::updates::piece_number(
            #[trigger] p[i],
        ) == v[i] by {
            if i > 0 {
                assert(p[i] == q[i - 1]);
                assert(rest[i - 1] == v[i]);
            }
        }
    } else {
        crate::laws::numbers::law_split(a, Seq::empty(), '.');
    }
}

/// Of two versions the newer is the one with the greater number at the first place where
/// they differ, where a missing number counts as 0.
pub proof fn law_newer(a: Seq<nat>, b: Seq<nat>)
    requires
        fits(a),
        fits(b),
    ensures
        crate::updates::newer(version_text(a), version_text(b)) <==> exists|i: int|
            {
                &&& 0 <= i
                &&& #[trigger] number_or_zero(a, i) > number_or_zero(b, i)
                &&& forall|j: int|
                    0 <= j < i ==> #[trigger] number_or_zero(a, j) == number_or_zero(b, j)
            },
{
    lemma_version_read(a);
    lemma_version_read(b);
    let x = crate::updates::version_numbers(version_text(a));
    let y = crate::updates::version_numbers(version_text(b));
    assert(crate::text::without_leading(version_text(a), 'v') == version_text(a));
    assert(crate::text::without_leading(version_text(b), 'v') == version_text(b));
    let p = crate::text::pieces(version_text(a), '.');
    let q = crate::text::pieces(version_text(b), '.');
    assert forall|i: int| 0 <= i < a.len() implies x[i] == a[i] by {
        assert(crate::updates::piece_number(p[i]) == a[i]);
    }
    assert forall|i: int| 0 <= i < b.len() implies y[i] == b[i] by {
        assert(crate::updates::piece_number(q[i]) == b[i]);
    }
    assert(x =~= a);
    assert(y =~= b);
    assert forall|i: int| 0 <= i implies #[trigger] number_or_zero(a, i)
        == crate::updates::number_at(x, i) && number_or_zero(b, i) == crate::updates::number_at(
        y,
        i,
    ) by {}
    if crate::updates::newer(version_text(a), version_text(b)) {
        let i = choose|i: int| crate::updates::exceeds_at(x, y, i);
        assert(number_or_zero(a, i) > number_or_zero(b, i));
        assert forall|j: int| 0 <= j < i implies #[trigger] number_or_zero(a, j)
            == number_or_zero(b, j) by {
            assert(crate::updates::number_at(x, j) == crate::updates::number_at(y, j));
        }
    }
    if exists|i: int|
        {
            &&& 0 <= i
            &&& #[trigger] number_or_zero(a, i) > number_or_zero(b, i)
            &&& forall|j: int|
                0 <= j < i ==> #[trigger] number_or_zero(a, j) == number_or_zero(b, j)
        } {
        let i = choose|i: int|
            {
                &&& 0 <= i
                &&& #[trigger] number_or_zero(a, i) > number_or_zero(b, i)
                &&& forall|j: int|
                    0 <= j < i ==> #[trigger] number_or_zero(a, j) == number_or_zero(b, j)
            };
        assert forall|j: int| 0 <= j < i implies #[trigger] crate::updates::number_at(x, j)
            == crate::updates::number_at(y, j) by {
            assert(number_or_zero(a, j) == number_or_zero(b, j));
        }
        assert(crate::updates::exceeds_at(x, y, i));
    }
}

/// The numbers of a version are those of its pieces between dots, without leading `v`,
/// where a piece that is no number of 64 bits counts as 0.
pub proof fn law_version_pieces(a: Seq<char>, b: Seq<char>, n: nat)
    requires
        !a.contains('.'),
        a.len() == 0 || a[0] != 'v',
        match crate::text::unsigned_number(a, u64::MAX as nat) {
            Some(k) => n == k,
            None => n == 0,
        },
        b.len() == 0 || b[0] != 'v',
    ensures
        crate::updates::version_numbers(a) == seq![n],
        crate::updates::version_numbers(a + seq!['.'] + b) == seq![n]
            + crate::updates::version_numbers(b),
{
    crate::laws::numbers::law_split(a, b, '.');
    let whole = a + seq!['.'] + b;
    assert(whole[0] != 'v') by {
        if a.len() > 0 {
            assert(whole[0] == a[0]);
        } else {
            assert(whole[0] == '.');
        }
    }
    assert(crate::updates::version_numbers(a) =~= seq![n]);
    assert(crate::updates::version_numbers(whole) =~= seq![n] + crate::updates::version_numbers(
        b,
    ));
}

} // verus!
