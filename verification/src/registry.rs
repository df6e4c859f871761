//! Registries of bundles: their index, and the archives that come from them.

use vstd::prelude::*;

use crate::error::SempkgError;
use crate::pieces;
use crate::pieces::copy_opt;
use crate::strmap;
use crate::strmap::StringMap;
use crate::text;
use crate::text::{same_text, trim_end_text, CharClass};

verus! {

// ---------------------------------------------------------------------------
// The index
// ---------------------------------------------------------------------------

/// What a registry has.
#[derive(Debug, Clone)]
pub struct RegistryIndex {
    pub packages: StringMap<RegistryPackage>,
}

/// The versions of a package.
#[derive(Debug, Clone)]
pub struct RegistryPackage {
    pub bundles: StringMap<RegistryBundle>,
}

/// One version of a package.
#[derive(Debug, Clone)]
pub struct RegistryBundle {
    /// The SHA-256 of the archive, where it is known.
    pub sha256: Option<String>,
    pub signed: bool,
    pub url: Option<String>,
}

pub ghost struct BundleEntryView {
    pub sha256: Option<Seq<char>>,
    pub signed: bool,
    pub url: Option<Seq<char>>,
}

impl View for RegistryBundle {
    type V = BundleEntryView;

    open spec fn view(&self) -> BundleEntryView {
        BundleEntryView {
            sha256: pieces::opt_text(self.sha256),
            signed: self.signed,
            url: pieces::opt_text(self.url),
        }
    }
}

/// The version of a package that an index has.
pub open spec fn indexed(index: RegistryIndex, package: Seq<char>, version: Seq<char>) -> Option<
    BundleEntryView,
> {
    if index.packages@.contains_key(package) && index.packages@[package].bundles@.contains_key(
        version,
    ) {
        Some(index.packages@[package].bundles@[version]@)
    } else {
        None
    }
}

/// Look a version of a package up.
pub fn lookup(index: &RegistryIndex, package: &str, version: &str) -> (r: Result<
    RegistryBundle,
    SempkgError,
>)
    ensures
        match r {
            Ok(b) => indexed(*index, package@, version@) == Some(b@),
            Err(e) => indexed(*index, package@, version@) is None && (e matches
                SempkgError::BundleNotFound { name, version: v } && name@ == package@ && v@
                == version@),
        },
{
    match index.packages.get(package) {
        Some(p) => match p.bundles.get(version) {
            Some(b) => {
                return Ok(
                    RegistryBundle {
                        sha256: copy_opt(&b.sha256),
                        signed: b.signed,
                        url: copy_opt(&b.url),
                    },
                );
            },
            None => {},
        },
        None => {},
    }
    Err(SempkgError::BundleNotFound { name: package.to_owned(), version: version.to_owned() })
}

/// The versions of one package, each with the package's name.
pub open spec fn package_versions(name: Seq<char>, p: RegistryPackage) -> Seq<
    (Seq<char>, Seq<char>),
> {
    p.bundles.keys().map_values(|v: Seq<char>| (name, v))
}

/// All versions of all packages, by package and by version.
pub open spec fn versions(ps: Seq<(String, RegistryPackage)>) -> Seq<(Seq<char>, Seq<char>)>
    decreases ps.len(),
{
    if ps.len() == 0 {
        seq![]
    } else {
        versions(ps.drop_last()) + package_versions(ps.last().0@, ps.last().1)
    }
}

pub open spec fn pair_views(v: Seq<(String, String)>) -> Seq<(Seq<char>, Seq<char>)> {
    v.map_values(|p: (String, String)| (p.0@, p.1@))
}

/// All versions that a registry has, by package and by version.
pub fn list_available(index: &RegistryIndex) -> (r: Vec<(String, String)>)
    ensures
        pair_views(r@) == versions(index.packages.entries@),
{
    let ghost ps = index.packages.entries@;
    let mut r: Vec<(String, String)> = Vec::new();
    let mut i: usize = 0;
    proof {
        assert(ps.take(0) =~= seq![]);
        assert(pair_views(r@) =~= seq![]);
    }
    while i < index.packages.entries.len()
        invariant
            i <= ps.len(),
            ps == index.packages.entries@,
            pair_views(r@) == versions(ps.take(i as int)),
        decreases index.packages.entries.len() - i,
    {
        let e = &index.packages.entries[i];
        let ghost before = pair_views(r@);
        let ghost more = package_versions(e.0@, e.1);
        let mut k: usize = 0;
        assert(pair_views(r@) =~= before + more.take(0));
        while k < e.1.bundles.entries.len()
            invariant
                k <= e.1.bundles.entries@.len(),
                more == package_versions(e.0@, e.1),
                pair_views(r@) == before + more.take(k as int),
            decreases e.1.bundles.entries.len() - k,
        {
            let ghost sofar = pair_views(r@);
            r.push((e.0.clone(), e.1.bundles.entries[k].0.clone()));
            proof {
                assert(more[k as int] == (e.0@, e.1.bundles.entries@[k as int].0@));
                assert(pair_views(r@) =~= sofar.push(more[k as int]));
                assert(pair_views(r@) =~= before + more.take(k + 1));
            }
            k = k + 1;
        }
        proof {
            assert(more.take(more.len() as int) =~= more);
            assert(ps.take(i + 1).drop_last() =~= ps.take(i as int));
        }
        i = i + 1;
    }
    assert(ps.take(ps.len() as int) =~= ps);
    r
}

/// A package and a version come before others.
pub open spec fn pair_lt(a: (Seq<char>, Seq<char>), b: (Seq<char>, Seq<char>)) -> bool {
    strmap::text_lt(a.0, b.0) || (a.0 == b.0 && strmap::text_lt(a.1, b.1))
}

/// What a registry has is listed in order, and nothing is listed twice.
pub proof fn listed_versions_rise(index: RegistryIndex)
    requires
        index.packages.wf(),
        forall|i: int|
            0 <= i < index.packages.entries@.len() ==> (
            #[trigger] index.packages.entries@[i]).1.bundles.wf(),
    ensures
        forall|i: int, j: int|
            0 <= i < j < versions(index.packages.entries@).len() ==> pair_lt(
                #[trigger] versions(index.packages.entries@)[i],
                #[trigger] versions(index.packages.entries@)[j],
            ),
{
    lemma_versions_rise(index.packages.entries@);
}

proof fn lemma_versions_rise(ps: Seq<(String, RegistryPackage)>)
    requires
        strmap::rising(ps),
        forall|i: int| 0 <= i < ps.len() ==> (#[trigger] ps[i]).1.bundles.wf(),
    ensures
        forall|i: int, j: int|
            0 <= i < j < versions(ps).len() ==> pair_lt(
                #[trigger] versions(ps)[i],
                #[trigger] versions(ps)[j],
            ),
        forall|i: int|
            0 <= i < versions(ps).len() ==> exists|k: int|
                0 <= k < ps.len() && (#[trigger] versions(ps)[i]).0 == (#[trigger] ps[k]).0@,
    decreases ps.len(),
{
    if ps.len() > 0 {
        let t = ps.drop_last();
        let last = ps.last();
        assert(ps[ps.len() - 1] == last);
        assert(last.1.bundles.wf());
        assert forall|i: int, j: int| 0 <= i < j < t.len() implies strmap::text_lt(
            (#[trigger] t[i]).0@,
            (#[trigger] t[j]).0@,
        ) by {
            assert(t[i] == ps[i] && t[j] == ps[j]);
        }
        assert forall|i: int| 0 <= i < t.len() implies (#[trigger] t[i]).1.bundles.wf() by {
            assert(t[i] == ps[i]);
        }
        lemma_versions_rise(t);
        let a = versions(t);
        let b = package_versions(last.0@, last.1);
        let all = versions(ps);
        assert forall|i: int, j: int| 0 <= i < j < all.len() implies pair_lt(
            #[trigger] all[i],
            #[trigger] all[j],
        ) by {
            if j < a.len() {
                assert(all[i] == a[i] && all[j] == a[j]);
            } else if i < a.len() {
                assert(all[i] == a[i]);
                let k = choose|k: int| 0 <= k < t.len() && a[i].0 == (#[trigger] t[k]).0@;
                assert(t[k] == ps[k]);
                assert(all[j] == b[j - a.len()]);
                assert(all[j].0 == last.0@);
                assert(strmap::text_lt(ps[k].0@, ps[ps.len() - 1].0@));
            } else {
                let x = i - a.len();
                let y = j - a.len();
                assert(all[i] == b[x] && all[j] == b[y]);
                let es = last.1.bundles.entries@;
                assert(b[x] == (last.0@, es[x].0@) && b[y] == (last.0@, es[y].0@));
                assert(strmap::text_lt(es[x].0@, es[y].0@));
            }
        }
        assert forall|i: int| 0 <= i < all.len() implies exists|k: int|
            0 <= k < ps.len() && (#[trigger] all[i]).0 == (#[trigger] ps[k]).0@ by {
            if i < a.len() {
                assert(all[i] == a[i]);
                let k = choose|k: int| 0 <= k < t.len() && a[i].0 == (#[trigger] t[k]).0@;
                assert(t[k] == ps[k]);
            } else {
                assert(all[i] == b[i - a.len()]);
                assert(all[i].0 == ps[ps.len() - 1].0@);
            }
        }
    }
}

// ---------------------------------------------------------------------------
// Addresses
// ---------------------------------------------------------------------------

/// An address without the slashes at its end.
pub open spec fn base(url: Seq<char>) -> Seq<char> {
    text::trim_end(url, CharClass::Is('/'))
}

/// The address of a registry, without the slashes at its end.
pub fn base_url(url: &str) -> (r: String)
    ensures
        r@ == base(url@),
{
    trim_end_text(url, CharClass::Is('/'))
}

/// Where a registry's index is.
pub fn index_url(url: &str) -> (r: String)
    ensures
        r@ == base(url@) + "/index.json"@,
{
    let mut r = base_url(url);
    r.append("/index.json");
    r
}

/// Where a registry has a bundle.
pub open spec fn bundle_address(url: Seq<char>, package: Seq<char>, version: Seq<char>) -> Seq<
    char,
> {
    base(url) + "/bundles/"@ + package + "/"@ + version + "/"@ + package + "-"@ + version
        + ".sembundle"@
}

/// Where a registry has a bundle.
pub fn bundle_url(url: &str, package: &str, version: &str) -> (r: String)
    ensures
        r@ == bundle_address(url@, package@, version@),
{
    let mut r = base_url(url);
    r.append("/bundles/");
    r.append(package);
    r.append("/");
    r.append(version);
    r.append("/");
    r.append(package);
    r.append("-");
    r.append(version);
    r.append(".sembundle");
    r
}

/// Where a registry has the signature of a bundle.
pub fn signature_url(url: &str, package: &str, version: &str) -> (r: String)
    ensures
        r@ == bundle_address(url@, package@, version@) + ".sig"@,
{
    let mut r = bundle_url(url, package, version);
    r.append(".sig");
    r
}

// ---------------------------------------------------------------------------
// Archives
// ---------------------------------------------------------------------------

/// The SHA-256 of bytes.
pub uninterp spec fn sha256(bytes: Seq<u8>) -> Seq<u8>;

/// A digit of hexadecimal.
pub open spec fn hex_digit(n: int) -> char {
    "0123456789abcdef"@[n]
}

/// Bytes in lower-case hexadecimal, two digits each, the higher one first.
pub open spec fn hex_text(bytes: Seq<u8>) -> Seq<char> {
    Seq::new(
        2 * bytes.len(),
        |i: int|
            hex_digit(
                if i % 2 == 0 {
                    bytes[i / 2] as int / 16
                } else {
                    bytes[i / 2] as int % 16
                },
            ),
    )
}

/// The SHA-256 of bytes, in lower-case hexadecimal.
pub open spec fn sha256_hex(bytes: Seq<u8>) -> Seq<char> {
    hex_text(sha256(bytes))
}

/// `sha2::Sha256::digest`: thirty-two bytes, a function of the bytes given.
#[verifier::external_body]
fn digest(bytes: &Vec<u8>) -> (r: Vec<u8>)
    ensures
        r@ == sha256(bytes@),
        r@.len() == 32,
{
    <sha2::Sha256 as sha2::Digest>::digest(bytes).to_vec()
}

/// `hex::encode`: two lower-case digits for each byte. The text has to fit into memory.
#[verifier::external_body]
fn hex_encoded(bytes: &Vec<u8>) -> (r: String)
    requires
        2 * bytes@.len() <= isize::MAX,
    ensures
        r@ == hex_text(bytes@),
{
    hex::encode(bytes)
}

/// Compare a digest with the one that is expected, where one is.
pub fn check_digest(actual: &str, path: &str, expected: Option<&str>) -> (r: Result<
    (),
    SempkgError,
>)
    ensures
        match expected {
            None => r is Ok,
            Some(e) => match r {
                Ok(_) => e@ == actual@,
                Err(x) => e@ != actual@ && (x matches SempkgError::ChecksumMismatch {
                    path: p,
                    expected: y,
                    actual: a,
                } && p@ == path@ && y@ == e@ && a@ == actual@),
            },
        },
{
    match expected {
        None => Ok(()),
        Some(e) => {
            if same_text(actual, e) {
                Ok(())
            } else {
                Err(
                    SempkgError::ChecksumMismatch {
                        path: path.to_owned(),
                        expected: e.to_owned(),
                        actual: actual.to_owned(),
                    },
                )
            }
        },
    }
}

/// Check a downloaded archive. It passes exactly where nothing is expected of it, or its
/// SHA-256 is the one that is expected.
pub fn check_archive(bytes: &Vec<u8>, path: &str, expected: Option<&str>) -> (r: Result<
    (),
    SempkgError,
>)
    ensures
        match expected {
            None => r is Ok,
            Some(e) => match r {
                Ok(_) => e@ == sha256_hex(bytes@),
                Err(x) => e@ != sha256_hex(bytes@) && (x matches SempkgError::ChecksumMismatch {
                    path: p,
                    expected: y,
                    actual: a,
                } && p@ == path@ && y@ == e@ && a@ == sha256_hex(bytes@)),
            },
        },
{
    match expected {
        None => Ok(()),
        Some(e) => {
            let actual = hex_encoded(&digest(bytes));
            check_digest(actual.as_str(), path, Some(e))
        },
    }
}

/// The name of a bundle's archive.
pub fn archive_name(package: &str, version: &str) -> (r: String)
    ensures
        r@ == package@ + "-"@ + version@ + ".sembundle"@,
{
    let mut r = package.to_owned();
    r.append("-");
    r.append(version);
    r.append(".sembundle");
    r
}

/// The answer of a registry: an error where its status is not one of success.
pub fn check_status(url: &str, status: u16, shown: &str) -> (r: Result<(), SempkgError>)
    ensures
        match r {
            Ok(_) => 200 <= status < 300,
            Err(e) => !(200 <= status < 300) && (e matches SempkgError::RegistryError {
                url: u,
                message,
            } && u@ == url@ && message@ == "HTTP "@ + shown@),
        },
{
    if 200 <= status && status < 300 {
        Ok(())
    } else {
        let mut m = "HTTP ".to_owned();
        m.append(shown);
        Err(SempkgError::RegistryError { url: url.to_owned(), message: m })
    }
}

/// What a registry lists is what can be looked up in it.
pub proof fn listed_versions_are_found(index: RegistryIndex, package: Seq<char>, version: Seq<char>)
    requires
        index.packages.wf(),
        forall|i: int|
            0 <= i < index.packages.entries@.len() ==> (
            #[trigger] index.packages.entries@[i]).1.bundles.wf(),
    ensures
        versions(index.packages.entries@).contains((package, version)) <==> indexed(
            index,
            package,
            version,
        ) is Some,
{
    let es = index.packages.entries@;
    lemma_versions(es, package, version);
    if versions(es).contains((package, version)) {
        let i = choose|i: int|
            0 <= i < es.len() && (#[trigger] es[i]).0@ == package && es[i].1.bundles.keys().contains(
                version,
            );
        strmap::lemma_unique_slot(es, i);
        let bs = es[i].1.bundles.entries@;
        let k = choose|k: int| 0 <= k < es[i].1.bundles.keys().len() && es[i].1.bundles.keys()[k]
            == version;
        assert(bs[k].0@ == version);
        strmap::lemma_unique_slot(bs, k);
    }
    if indexed(index, package, version) is Some {
        strmap::keys_are_in_the_entries(es, package);
        let i = choose|i: int|
            0 <= i < es.len() && (#[trigger] es[i]).0@ == package && es[i].1
                == index.packages@[package];
        let bs = es[i].1.bundles.entries@;
        strmap::keys_are_in_the_entries(bs, version);
        let k = choose|k: int| 0 <= k < bs.len() && (#[trigger] bs[k]).0@ == version;
        assert(es[i].1.bundles.keys()[k] == version);
        assert(es[i].1.bundles.keys().contains(version));
    }
}

proof fn lemma_versions(
    ps: Seq<(String, RegistryPackage)>,
    package: Seq<char>,
    version: Seq<char>,
)
    ensures
        versions(ps).contains((package, version)) <==> exists|i: int|
            0 <= i < ps.len() && (#[trigger] ps[i]).0@ == package && ps[i].1.bundles.keys().contains(
                version,
            ),
    decreases ps.len(),
{
    let x = (package, version);
    if ps.len() > 0 {
        let t = ps.drop_last();
        let p = ps.last();
        lemma_versions(t, package, version);
        let before = versions(t);
        let more = package_versions(p.0@, p.1);
        if versions(ps).contains(x) {
            let j = choose|j: int| 0 <= j < versions(ps).len() && versions(ps)[j] == x;
            if j < before.len() {
                assert(before[j] == x);
                let i = choose|i: int|
                    0 <= i < t.len() && (#[trigger] t[i]).0@ == package
                        && t[i].1.bundles.keys().contains(version);
                assert(ps[i] == t[i]);
            } else {
                let k = j - before.len();
                assert(more[k] == x);
                assert(p.1.bundles.keys()[k] == version);
                assert(ps[ps.len() - 1] == p);
            }
        }
        if exists|i: int|
            0 <= i < ps.len() && (#[trigger] ps[i]).0@ == package && ps[i].1.bundles.keys().contains(
                version,
            ) {
            let i = choose|i: int|
                0 <= i < ps.len() && (#[trigger] ps[i]).0@ == package
                    && ps[i].1.bundles.keys().contains(version);
            if i < t.len() {
                assert(t[i] == ps[i]);
                let j = choose|j: int| 0 <= j < before.len() && before[j] == x;
                assert(versions(ps)[j] == x);
            } else {
                let k = choose|k: int| 0 <= k < p.1.bundles.keys().len() && p.1.bundles.keys()[k]
                    == version;
                assert(more[k] == x);
                assert(versions(ps)[before.len() + k] == x);
            }
        }
    }
}

/// Slashes at the end of an address do not matter: only they fall off, and every address of
/// the registry is the same with them or without.
pub proof fn slashes_at_the_end_do_not_matter(
    url: Seq<char>,
    package: Seq<char>,
    version: Seq<char>,
)
    ensures
        base(url).len() <= url.len(),
        base(url) == url.take(base(url).len() as int),
        base(url).len() > 0 ==> base(url).last() != '/',
        forall|i: int| base(url).len() <= i < url.len() ==> #[trigger] url[i] == '/',
        base(url.push('/')) == base(url),
        bundle_address(url.push('/'), package, version) == bundle_address(url, package, version),
    decreases url.len(),
{
    let k = CharClass::Is('/');
    assert(url.push('/').drop_last() =~= url);
    if url.len() > 0 && url.last() == '/' {
        let t = url.drop_last();
        slashes_at_the_end_do_not_matter(t, package, version);
        assert(t.take(base(t).len() as int) =~= url.take(base(t).len() as int));
        assert forall|i: int| base(url).len() <= i < url.len() implies #[trigger] url[i] == '/' by {
            if i < t.len() {
                assert(t[i] == url[i]);
            }
        }
    } else {
        assert(url.take(url.len() as int) =~= url);
    }
}

/// The address of a bundle is below the registry, in the directory of the package and the
/// version, and its last part is the name of the archive.
pub proof fn bundles_lie_below_their_registry(
    url: Seq<char>,
    package: Seq<char>,
    version: Seq<char>,
)
    ensures
        exists|dir: Seq<char>|
            bundle_address(url, package, version) == #[trigger] (base(url) + dir) + (package + "-"@
                + version + ".sembundle"@) && dir == "/bundles/"@ + package + "/"@ + version + "/"@,
{
    let dir = "/bundles/"@ + package + "/"@ + version + "/"@;
    assert(bundle_address(url, package, version) =~= (base(url) + dir) + (package + "-"@ + version
        + ".sembundle"@));
}

/// Two digits of hexadecimal are a byte, the higher one first.
pub proof fn bytes_are_two_digits(bytes: Seq<u8>, i: int)
    requires
        0 <= i < bytes.len(),
    ensures
        hex_text(bytes).len() == 2 * bytes.len(),
        digit_of(hex_text(bytes)[2 * i]) * 16 + digit_of(hex_text(bytes)[2 * i + 1]) == bytes[i],
{
    reveal_strlit("0123456789abcdef");
    let h = bytes[i] as int / 16;
    let l = bytes[i] as int % 16;
    assert((2 * i) / 2 == i && (2 * i) % 2 == 0);
    assert((2 * i + 1) / 2 == i && (2 * i + 1) % 2 == 1);
    assert(hex_text(bytes)[2 * i] == hex_digit(h));
    assert(hex_text(bytes)[2 * i + 1] == hex_digit(l));
    assert(0 <= h < 16 && 0 <= l < 16);
    lemma_hex_digit(h);
    lemma_hex_digit(l);
}

/// The number that a digit of hexadecimal is.
pub open spec fn digit_of(c: char) -> int {
    if '0' <= c && c <= '9' {
        c as int - '0' as int
    } else {
        c as int - 'a' as int + 10
    }
}

proof fn lemma_hex_digit(n: int)
    requires
        0 <= n < 16,
    ensures
        digit_of(hex_digit(n)) == n,
{
    reveal_strlit("0123456789abcdef");
    assert("0123456789abcdef"@[n] == (if n < 10 {
        ('0' as int + n) as char
    } else {
        ('a' as int + n - 10) as char
    }));
}

} // verus!
