//! Browser installs: the cache layout, the newest managed build, known system browsers, and
//! `kite install`, which downloads a Chrome-for-Testing `chrome-headless-shell` build.
use crate::json::{views, Json, JsonView};
use crate::paths::{
    bare_drive, component_start, has_drive, is_sep, is_windows, join_path, last_component, main_sep,
    path_join, strip_trailing,
};
use crate::text::{
    decimal, decimal_text, is_empty, law_decimal_is_read_back, law_numbers_round_trip,
    law_separator_parts_text, lemma_split_single, lemma_texts_push, opt_str, opt_text, parse_number,
    parse_unsigned, same, split, split_text, starts_with, texts, to_chars,
};
use vstd::prelude::*;

verus! {

/// Chrome-for-Testing "known good versions with downloads" manifest.
pub const CFT_MANIFEST_URL: &'static str = "https://googlechromelabs.github.io/chrome-for-testing/known-good-versions-with-downloads.json";

/// What `kite install --help` prints.
pub const HELP: &'static str = "kite install — download a headless Chromium for kitewright

USAGE:
    kite install [--help]

Downloads the latest stable Chrome-for-Testing `chrome-headless-shell` build
for this platform into the kitewright install cache and makes the engine use
it automatically (no BROWSER_EXECUTABLE needed). Re-running is a no-op once a
build is present.

The cache lives under $KITE_CACHE_DIR (or the OS cache dir) in
`kitewright/chrome-headless-shell/<version>/`.
";

// -- platform and layout ------------------------------------------------------------------------------
/// The Chrome-for-Testing platform of an operating system and architecture, where builds
/// are published for it.
pub open spec fn platform_of(os: Seq<char>, arch: Seq<char>) -> Option<Seq<char>> {
    if os == "macos"@ && arch == "aarch64"@ {
        Some("mac-arm64"@)
    } else if os == "macos"@ && arch == "x86_64"@ {
        Some("mac-x64"@)
    } else if os == "linux"@ && arch == "x86_64"@ {
        Some("linux64"@)
    } else if os == "windows"@ && arch == "x86_64"@ {
        Some("win64"@)
    } else {
        None
    }
}

/// The Chrome-for-Testing platform id of an operating system and architecture.
pub fn map_platform(os: &str, arch: &str) -> (res: Option<&'static str>)
    ensures
        opt_str(res) == platform_of(os@, arch@),
{
    if same(os, "macos") && same(arch, "aarch64") {
        Some("mac-arm64")
    } else if same(os, "macos") && same(arch, "x86_64") {
        Some("mac-x64")
    } else if same(os, "linux") && same(arch, "x86_64") {
        Some("linux64")
    } else if same(os, "windows") && same(arch, "x86_64") {
        Some("win64")
    } else {
        None
    }
}

/// The error for a platform without builds.
pub open spec fn no_platform_text(os: Seq<char>, arch: Seq<char>) -> Seq<char> {
    "no Chrome-for-Testing chrome-headless-shell build for "@ + os + "/"@ + arch
        + " — set BROWSER_EXECUTABLE to an existing Chrome/Chromium instead"@
}

/// The platform id, or an error that says what to do instead.
pub fn current_platform(os: &str, arch: &str) -> (res: Result<&'static str, String>)
    ensures
        match platform_of(os@, arch@) {
            Some(p) => res is Ok && res->Ok_0@ == p,
            None => res is Err && res->Err_0@ == no_platform_text(os@, arch@),
        },
{
    match map_platform(os, arch) {
        Some(p) => Ok(p),
        None => {
            let mut e = "no Chrome-for-Testing chrome-headless-shell build for ".to_owned();
            e.append(os);
            e.append("/");
            e.append(arch);
            e.append(" — set BROWSER_EXECUTABLE to an existing Chrome/Chromium instead");
            Err(e)
        },
    }
}

/// The file name of the browser binary.
pub open spec fn binary_name(os: Seq<char>) -> Seq<char> {
    if os == "windows"@ {
        "chrome-headless-shell.exe"@
    } else {
        "chrome-headless-shell"@
    }
}

/// The file name of the `chrome-headless-shell` binary on an operating system.
pub fn headless_shell_binary_name(os: &str) -> (res: &'static str)
    ensures
        res@ == binary_name(os@),
{
    if same(os, "windows") {
        "chrome-headless-shell.exe"
    } else {
        "chrome-headless-shell"
    }
}

/// The directory that holds the managed builds, one sub-directory per version.
pub open spec fn cache_root_text(
    kite_cache_dir: Option<Seq<char>>,
    platform_cache: Option<Seq<char>>,
    temp_dir: Seq<char>,
    os: Seq<char>,
) -> Seq<char> {
    let base = match kite_cache_dir {
        Some(d) => if d.len() > 0 {
            d
        } else {
            match platform_cache {
                Some(p) => p,
                None => temp_dir,
            }
        },
        None => match platform_cache {
            Some(p) => p,
            None => temp_dir,
        },
    };
    path_join(path_join(base, "kitewright"@, os), "chrome-headless-shell"@, os)
}

/// The install cache: under `$KITE_CACHE_DIR` where that is set and not empty, else under the
/// platform's cache directory, else under the temporary one.
pub fn cache_root(
    kite_cache_dir: Option<String>,
    platform_cache: Option<String>,
    temp_dir: &str,
    os: &str,
) -> (res: String)
    ensures
        res@ == cache_root_text(
            opt_text(kite_cache_dir),
            opt_text(platform_cache),
            temp_dir@,
            os@,
        ),
{
    let own = match kite_cache_dir {
        Some(d) => if is_empty(d.as_str()) {
            None
        } else {
            Some(d)
        },
        None => None,
    };
    let base = match own {
        Some(d) => d,
        None => match platform_cache {
            Some(p) => p,
            None => temp_dir.to_owned(),
        },
    };
    let dir = join_path(base.as_str(), "kitewright", os);
    join_path(dir.as_str(), "chrome-headless-shell", os)
}

/// The directory that a version is extracted into.
pub fn version_dir(cache_dir: &str, version: &str, os: &str) -> (res: String)
    ensures
        res@ == path_join(cache_dir@, version@, os@),
{
    join_path(cache_dir, version, os)
}

/// Where the binary of a version lands.
pub open spec fn binary_path_text(
    cache_dir: Seq<char>,
    version: Seq<char>,
    platform: Seq<char>,
    os: Seq<char>,
) -> Seq<char> {
    path_join(
        path_join(path_join(cache_dir, version, os), "chrome-headless-shell-"@ + platform, os),
        binary_name(os),
        os,
    )
}

/// Where the binary lands once the archive of a version is extracted:
/// `<version>/chrome-headless-shell-<platform>/chrome-headless-shell[.exe]`.
pub fn binary_path(cache_dir: &str, version: &str, platform: &str, os: &str) -> (res: String)
    ensures
        res@ == binary_path_text(cache_dir@, version@, platform@, os@),
{
    let dir = version_dir(cache_dir, version, os);
    let mut sub = "chrome-headless-shell-".to_owned();
    sub.append(platform);
    let folder = join_path(dir.as_str(), sub.as_str(), os);
    join_path(folder.as_str(), headless_shell_binary_name(os), os)
}

// -- versions ------------------------------------------------------------------------------
/// The number of a version component; anything that is none counts as 0.
pub open spec fn component(s: Seq<char>) -> u64 {
    match parse_number(s, u64::MAX as int) {
        Some(n) => n as u64,
        None => 0,
    }
}

/// The components of a version.
pub open spec fn key_of(v: Seq<char>) -> Seq<u64> {
    split(v, '.').map_values(|p: Seq<char>| component(p))
}

/// The components of a version as numbers, so that versions order numerically.
pub fn version_key(v: &str) -> (res: Vec<u64>)
    ensures
        res@ == key_of(v@),
{
    let parts = split_text(to_chars(v).as_slice(), '.');
    let mut out: Vec<u64> = Vec::new();
    for i in 0..parts.len()
        invariant
            texts(parts@) == split(v@, '.'),
            out@ == key_of(v@).take(i as int),
    {
        let c = to_chars(parts[i].as_str());
        let n: u64 = match parse_unsigned(c.as_slice(), u64::MAX) {
            Some(n) => n,
            None => 0,
        };
        assert(texts(parts@)[i as int] == c@);
        out.push(n);
        assert(out@ =~= key_of(v@).take(i + 1));
    }
    assert(key_of(v@).take(parts@.len() as int) =~= key_of(v@));
    out
}

/// Component by component, a shorter key before its extensions.
pub open spec fn key_less(a: Seq<u64>, b: Seq<u64>) -> bool
    decreases a.len(),
{
    if b.len() == 0 {
        false
    } else if a.len() == 0 {
        true
    } else if a[0] != b[0] {
        a[0] < b[0]
    } else {
        key_less(a.drop_first(), b.drop_first())
    }
}

fn older(a: &Vec<u64>, b: &Vec<u64>) -> (res: bool)
    ensures
        res == key_less(a@, b@),
{
    let mut i: usize = 0;
    assert(a@.skip(0) =~= a@);
    assert(b@.skip(0) =~= b@);
    while i < a.len() && i < b.len()
        invariant
            0 <= i <= a@.len(),
            i <= b@.len(),
            key_less(a@, b@) == key_less(a@.skip(i as int), b@.skip(i as int)),
        decreases a@.len() - i,
    {
        assert(a@.skip(i as int)[0] == a@[i as int]);
        assert(b@.skip(i as int)[0] == b@[i as int]);
        if a[i] != b[i] {
            return a[i] < b[i];
        }
        assert(a@.skip(i as int).drop_first() =~= a@.skip(i + 1));
        assert(b@.skip(i as int).drop_first() =~= b@.skip(i + 1));
        i = i + 1;
    }
    i < b.len()
}

pub proof fn lemma_key_less_transitive(a: Seq<u64>, b: Seq<u64>, c: Seq<u64>)
    requires
        key_less(a, b),
        key_less(b, c),
    ensures
        key_less(a, c),
    decreases a.len(),
{
    if a.len() > 0 && b.len() > 0 && c.len() > 0 && a[0] == b[0] && b[0] == c[0] {
        lemma_key_less_transitive(a.drop_first(), b.drop_first(), c.drop_first());
    }
}

pub proof fn lemma_key_less_total(a: Seq<u64>, b: Seq<u64>)
    ensures
        key_less(a, b) || key_less(b, a) || a == b,
        !(key_less(a, b) && key_less(b, a)),
    decreases a.len(),
{
    if a.len() > 0 && b.len() > 0 && a[0] == b[0] {
        lemma_key_less_total(a.drop_first(), b.drop_first());
        if a.drop_first() == b.drop_first() {
            assert(a =~= seq![a[0]] + a.drop_first());
            assert(b =~= seq![b[0]] + b.drop_first());
        }
    } else if a.len() == 0 && b.len() == 0 {
        assert(a =~= b);
    }
}

// -- finding a browser ------------------------------------------------------------------------------
/// A version directory of the install cache.
pub struct InstalledVersion {
    pub name: String,
    /// Whether the binary stands directly in it.
    pub direct: bool,
    /// The first sub-directory that holds the binary.
    pub nested: Option<String>,
}

/// Whether a version directory holds the binary.
pub open spec fn has_binary(v: InstalledVersion) -> bool {
    v.direct || v.nested is Some
}

/// `at` is the newest version that holds the binary, the first of them where versions are
/// equal.
pub open spec fn is_newest(vs: Seq<InstalledVersion>, at: int) -> bool {
    &&& 0 <= at < vs.len()
    &&& has_binary(vs[at])
    &&& forall|j: int|
        0 <= j < vs.len() && has_binary(#[trigger] vs[j]) ==> !key_less(
            key_of(vs[at].name@),
            key_of(vs[j].name@),
        )
    &&& forall|j: int|
        0 <= j < at && has_binary(#[trigger] vs[j]) ==> key_less(
            key_of(vs[j].name@),
            key_of(vs[at].name@),
        )
}

/// The path of a version's binary.
pub open spec fn installed_path(root: Seq<char>, v: InstalledVersion, os: Seq<char>) -> Seq<char> {
    let dir = path_join(root, v.name@, os);
    if v.direct {
        path_join(dir, binary_name(os), os)
    } else {
        match v.nested {
            Some(sub) => path_join(path_join(dir, sub@, os), binary_name(os), os),
            None => path_join(dir, binary_name(os), os),
        }
    }
}

fn newest(vs: &Vec<InstalledVersion>) -> (res: Option<usize>)
    ensures
        match res {
            Some(i) => is_newest(vs@, i as int),
            None => forall|j: int| 0 <= j < vs@.len() ==> !has_binary(#[trigger] vs@[j]),
        },
{
    let mut best: Option<usize> = None;
    for i in 0..vs.len()
        invariant
            match best {
                Some(b) => is_newest(vs@.take(i as int), b as int),
                None => forall|j: int| 0 <= j < i ==> !has_binary(#[trigger] vs@[j]),
            },
    {
        let ghost prev = vs@.take(i as int);
        let ghost next = vs@.take(i + 1);
        let ghost ki = key_of(vs@[i as int].name@);
        if vs[i].direct || vs[i].nested.is_some() {
            match best {
                None => {
                    best = Some(i);
                    proof {
                        lemma_key_less_total(ki, ki);
                        assert forall|j: int|
                            0 <= j < next.len() && has_binary(#[trigger] next[j]) implies !key_less(
                            ki,
                            key_of(next[j].name@),
                        ) by {
                            assert(next[j] == vs@[j]);
                        }
                    }
                },
                Some(b) => {
                    let kb = version_key(vs[b].name.as_str());
                    let kn = version_key(vs[i].name.as_str());
                    assert(prev[b as int] == vs@[b as int]);
                    if older(&kb, &kn) {
                        best = Some(i);
                        proof {
                            lemma_key_less_total(ki, ki);
                            assert forall|j: int|
                                0 <= j < i && has_binary(#[trigger] next[j]) implies key_less(
                                key_of(next[j].name@),
                                ki,
                            ) by {
                                assert(next[j] == prev[j]);
                                lemma_key_less_total(key_of(prev[j].name@), kb@);
                                if key_less(key_of(prev[j].name@), kb@) {
                                    lemma_key_less_transitive(key_of(prev[j].name@), kb@, ki);
                                }
                            }
                            assert forall|j: int|
                                0 <= j < next.len() && has_binary(#[trigger] next[j]) implies !key_less(
                                ki,
                                key_of(next[j].name@),
                            ) by {
                                if j < i {
                                    lemma_key_less_total(key_of(next[j].name@), ki);
                                }
                            }
                        }
                    } else {
                        proof {
                            assert forall|j: int|
                                0 <= j < next.len() && has_binary(#[trigger] next[j]) implies !key_less(
                                kb@,
                                key_of(next[j].name@),
                            ) by {
                                if j < i {
                                    assert(next[j] == prev[j]);
                                }
                            }
                            assert forall|j: int|
                                0 <= j < b && has_binary(#[trigger] next[j]) implies key_less(
                                key_of(next[j].name@),
                                kb@,
                            ) by {
                                assert(next[j] == prev[j]);
                            }
                        }
                    }
                },
            }
        } else {
            proof {
                if let Some(b) = best {
                    assert(prev[b as int] == next[b as int]);
                    assert forall|j: int|
                        0 <= j < next.len() && has_binary(#[trigger] next[j]) implies !key_less(
                        key_of(next[b as int].name@),
                        key_of(next[j].name@),
                    ) by {
                        if j < i {
                            assert(next[j] == prev[j]);
                        }
                    }
                    assert forall|j: int|
                        0 <= j < b && has_binary(#[trigger] next[j]) implies key_less(
                        key_of(next[j].name@),
                        key_of(next[b as int].name@),
                    ) by {
                        assert(next[j] == prev[j]);
                    }
                }
            }
        }
    }
    assert(vs@.take(vs@.len() as int) =~= vs@);
    best
}

/// Whether `found` is the binary of the newest version that holds one, or nothing where none
/// does.
pub open spec fn is_found(
    found: Option<Seq<char>>,
    root: Seq<char>,
    versions: Seq<InstalledVersion>,
    os: Seq<char>,
) -> bool {
    match found {
        Some(p) => exists|i: int|
            #[trigger] is_newest(versions, i) && p == installed_path(
                root,
                versions[i],
                os,
            ),
        None => forall|j: int| 0 <= j < versions.len() ==> !has_binary(#[trigger] versions[j]),
    }
}

/// The binary of the newest managed build in the cache at `root`.
pub fn find_installed_browser(root: &str, versions: &Vec<InstalledVersion>, os: &str) -> (res:
    Option<String>)
    ensures
        is_found(opt_text(res), root@, versions@, os@),
        res is None <==> forall|j: int|
            0 <= j < versions@.len() ==> !(#[trigger] versions@[j]).direct
                && versions@[j].nested is None,
{
    match newest(versions) {
        None => None,
        Some(i) => {
            let bin = headless_shell_binary_name(os);
            let dir = join_path(root, versions[i].name.as_str(), os);
            assert(is_newest(versions@, i as int));
            if versions[i].direct {
                return Some(join_path(dir.as_str(), bin, os));
            }
            match &versions[i].nested {
                Some(sub) => {
                    let folder = join_path(dir.as_str(), sub.as_str(), os);
                    Some(join_path(folder.as_str(), bin, os))
                },
                None => Some(join_path(dir.as_str(), bin, os)),
            }
        },
    }
}

/// Whether a text can be the name of a directory of its own: it is not empty, neither `.` nor
/// `..`, and holds no separator, on Windows no colon either.
pub open spec fn plain_name(name: Seq<char>, os: Seq<char>) -> bool {
    &&& name.len() > 0
    &&& name != "."@ && name != ".."@
    &&& forall|i: int| 0 <= i < name.len() ==> !is_sep(#[trigger] name[i], os)
    &&& is_windows(os) ==> !name.contains(':')
}

/// Whether a listing of the version directories below `root` is true to the files there: every
/// binary that it tells of is a file, and every binary in a sub-directory of a version directory
/// is told of.
pub open spec fn lists(
    versions: Seq<InstalledVersion>,
    root: Seq<char>,
    os: Seq<char>,
    files: Set<Seq<char>>,
) -> bool {
    &&& forall|i: int|
        0 <= i < versions.len() ==> {
            &&& plain_name((#[trigger] versions[i]).name@, os)
            &&& versions[i].nested matches Some(sub) ==> plain_name(sub@, os)
            &&& has_binary(versions[i]) ==> files.contains(installed_path(root, versions[i], os))
        }
    &&& forall|dir: Seq<char>, sub: Seq<char>|
        files.contains(
            #[trigger] path_join(path_join(path_join(root, dir, os), sub, os), binary_name(os), os),
        ) && plain_name(dir, os) && plain_name(sub, os) ==> exists|i: int|
            0 <= i < versions.len() && (#[trigger] versions[i]).name@ == dir && has_binary(
                versions[i],
            )
}

/// Whether `path` is the binary of a version in the listing that is no older than `version`.
pub open spec fn is_no_older(
    path: Seq<char>,
    root: Seq<char>,
    versions: Seq<InstalledVersion>,
    os: Seq<char>,
    version: Seq<char>,
    i: int,
) -> bool {
    &&& 0 <= i < versions.len()
    &&& path == installed_path(root, versions[i], os)
    &&& !key_less(key_of(versions[i].name@), key_of(version))
}

/// The build that an install leaves behind is found, or a newer one is: with its binary at
/// [`binary_path`], the search succeeds with a file below the cache directory that is named like
/// the binary and whose version is no older.
pub proof fn law_installed_build_is_found(
    found: Option<Seq<char>>,
    root: Seq<char>,
    versions: Seq<InstalledVersion>,
    os: Seq<char>,
    files: Set<Seq<char>>,
    version: Seq<char>,
    platform: Seq<char>,
)
    requires
        is_found(found, root, versions, os),
        lists(versions, root, os, files),
        plain_name(version, os),
        plain_name(platform, os),
        files.contains(binary_path_text(root, version, platform, os)),
    ensures
        found matches Some(path) && files.contains(path) && starts_with(path, root)
            && last_component(path, os) == binary_name(os) && exists|i: int|
            #[trigger] is_no_older(path, root, versions, os, version, i),
{
    let bin = binary_name(os);
    let sub = "chrome-headless-shell-"@ + platform;
    lemma_build_dir(platform, os);
    let j = choose|i: int|
        0 <= i < versions.len() && (#[trigger] versions[i]).name@ == version && has_binary(
            versions[i],
        );
    assert(has_binary(versions[j]));
    let path = found.unwrap();
    let i = choose|i: int|
        #[trigger] is_newest(versions, i) && path == installed_path(root, versions[i], os);
    assert(is_no_older(path, root, versions, os, version, i));
    let v = versions[i];
    let dir = path_join(root, v.name@, os);
    lemma_join_plain(root, v.name@, os);
    let parent = if v.direct {
        dir
    } else {
        path_join(dir, v.nested.unwrap()@, os)
    };
    if !v.direct {
        lemma_join_plain(dir, v.nested.unwrap()@, os);
        assert(parent.take(root.len() as int) =~= dir.take(root.len() as int));
    }
    lemma_binary_name(os);
    lemma_join_plain(parent, bin, os);
    lemma_file_name(parent, os);
    assert(path.take(root.len() as int) =~= parent.take(root.len() as int));
}

/// A plain name goes below a path: the path stays in front, and the name at the end.
proof fn lemma_join_plain(base: Seq<char>, name: Seq<char>, os: Seq<char>)
    requires
        plain_name(name, os),
    ensures
        starts_with(path_join(base, name, os), base),
        path_join(base, name, os).len() > 0,
        path_join(base, name, os).last() == name.last(),
        !bare_drive(path_join(base, name, os), os),
{
    let path = path_join(base, name, os);
    assert(!is_sep(name[0], os));
    assert(!is_sep(name[name.len() - 1], os));
    if is_windows(os) && has_drive(name) {
        assert(name.contains(name[1]));
    }
    assert(path.take(base.len() as int) =~= base);
    assert(path.last() == name.last());
    if bare_drive(path, os) {
        assert(path.last() == ':');
        assert(name.contains(name[name.len() - 1]));
    }
}

proof fn lemma_binary_name(os: Seq<char>)
    ensures
        plain_name(binary_name(os), os),
        binary_name(os).len() > 2,
        binary_name(os).last() != '.',
{
    reveal_strlit("chrome-headless-shell.exe");
    reveal_strlit("chrome-headless-shell");
    reveal_strlit(".");
    reveal_strlit("..");
    let bin = binary_name(os);
    let exe = "chrome-headless-shell.exe"@;
    let plain = "chrome-headless-shell"@;
    assert(forall|i: int|
        0 <= i < exe.len() ==> #[trigger] exe[i] != '/' && exe[i] != '\\' && exe[i] != ':');
    assert(forall|i: int|
        0 <= i < plain.len() ==> #[trigger] plain[i] != '/' && plain[i] != '\\' && plain[i] != ':');
    assert forall|i: int| 0 <= i < bin.len() implies !is_sep(#[trigger] bin[i], os) && bin[i]
        != ':' by {
        if bin == exe {
            assert(exe[i] != '/');
        } else {
            assert(plain[i] != '/');
        }
    }
}

proof fn lemma_build_dir(platform: Seq<char>, os: Seq<char>)
    requires
        plain_name(platform, os),
    ensures
        plain_name("chrome-headless-shell-"@ + platform, os),
{
    reveal_strlit("chrome-headless-shell-");
    reveal_strlit(".");
    reveal_strlit("..");
    let head = "chrome-headless-shell-"@;
    let sub = head + platform;
    assert forall|i: int| 0 <= i < sub.len() implies !is_sep(#[trigger] sub[i], os) && (is_windows(
        os,
    ) ==> sub[i] != ':') by {
        if i >= head.len() {
            assert(sub[i] == platform[i - head.len()]);
            assert(platform.contains(platform[i - head.len()]));
        }
    }
}

proof fn lemma_component_start(head: Seq<char>, name: Seq<char>, os: Seq<char>)
    requires
        head.len() > 0,
        is_sep(head.last(), os),
        forall|i: int| 0 <= i < name.len() ==> !is_sep(#[trigger] name[i], os),
        forall|i: int| 0 <= i < name.len() ==> #[trigger] name[i] != ':',
    ensures
        component_start(head + name, os) == head.len(),
    decreases name.len(),
{
    if name.len() == 0 {
        assert(head + name =~= head);
    } else {
        let front = name.drop_last();
        assert((head + name).drop_last() =~= head + front);
        assert((head + name).last() == name[name.len() - 1]);
        assert forall|i: int| 0 <= i < front.len() implies !is_sep(#[trigger] front[i], os)
            && front[i] != ':' by {
            assert(front[i] == name[i]);
        }
        lemma_component_start(head, front, os);
    }
}

/// The binary below a directory has the binary's name.
proof fn lemma_file_name(dir: Seq<char>, os: Seq<char>)
    requires
        dir.len() > 0,
        !bare_drive(dir, os),
    ensures
        last_component(path_join(dir, binary_name(os), os), os) == binary_name(os),
{
    reveal_strlit("chrome-headless-shell.exe");
    reveal_strlit("chrome-headless-shell");
    reveal_strlit("/");
    reveal_strlit("\\");
    lemma_binary_name(os);
    let bin = binary_name(os);
    lemma_join_plain(dir, bin, os);
    let path = path_join(dir, bin, os);
    let head = if is_sep(dir.last(), os) {
        dir
    } else {
        dir + main_sep(os)
    };
    assert(bin[0] == 'c' && bin[1] == 'h');
    assert(path =~= head + bin);
    assert forall|i: int| 0 <= i < bin.len() implies !is_sep(#[trigger] bin[i], os) && bin[i]
        != ':' by {}
    lemma_component_start(head, bin, os);
    assert(path.last() == bin[bin.len() - 1]);
    assert(strip_trailing(path, os) == path);
    assert(path.skip(head.len() as int) =~= bin);
}

/// Standard install locations of a Chromium-family browser.
pub open spec fn system_paths() -> Seq<Seq<char>> {
    seq![
        "/Applications/Google Chrome.app/Contents/MacOS/Google Chrome"@,
        "/Applications/Chromium.app/Contents/MacOS/Chromium"@,
        "/Applications/Brave Browser.app/Contents/MacOS/Brave Browser"@,
        "/Applications/Microsoft Edge.app/Contents/MacOS/Microsoft Edge"@,
        "/usr/bin/google-chrome"@,
        "/usr/bin/google-chrome-stable"@,
        "/usr/bin/chromium"@,
        "/usr/bin/chromium-browser"@,
        "/snap/bin/chromium"@,
        "/opt/google/chrome/chrome"@,
        "C:\\Program Files\\Google\\Chrome\\Application\\chrome.exe"@,
        "C:\\Program Files (x86)\\Google\\Chrome\\Application\\chrome.exe"@,
    ]
}

fn push_path(out: &mut Vec<String>, path: &str)
    ensures
        texts(final(out)@) == texts(old(out)@).push(path@),
{
    let s = path.to_owned();
    proof {
        lemma_texts_push(out@, s);
    }
    out.push(s);
}

/// Standard install locations of a Chromium-family browser, in the order they are tried.
pub fn system_browser_paths() -> (res: Vec<String>)
    ensures
        texts(res@) == system_paths(),
{
    let mut out: Vec<String> = Vec::new();
    push_path(&mut out, "/Applications/Google Chrome.app/Contents/MacOS/Google Chrome");
    push_path(&mut out, "/Applications/Chromium.app/Contents/MacOS/Chromium");
    push_path(&mut out, "/Applications/Brave Browser.app/Contents/MacOS/Brave Browser");
    push_path(&mut out, "/Applications/Microsoft Edge.app/Contents/MacOS/Microsoft Edge");
    push_path(&mut out, "/usr/bin/google-chrome");
    push_path(&mut out, "/usr/bin/google-chrome-stable");
    push_path(&mut out, "/usr/bin/chromium");
    push_path(&mut out, "/usr/bin/chromium-browser");
    push_path(&mut out, "/snap/bin/chromium");
    push_path(&mut out, "/opt/google/chrome/chrome");
    push_path(&mut out, "C:\\Program Files\\Google\\Chrome\\Application\\chrome.exe");
    push_path(&mut out, "C:\\Program Files (x86)\\Google\\Chrome\\Application\\chrome.exe");
    assert(texts(out@) =~= system_paths());
    out
}

/// The first path that exists.
pub open spec fn first_present(paths: Seq<Seq<char>>, present: Seq<bool>) -> Option<Seq<char>>
    decreases paths.len(),
{
    if paths.len() == 0 || present.len() == 0 {
        None
    } else if present[0] {
        Some(paths[0])
    } else {
        first_present(paths.drop_first(), present.drop_first())
    }
}

/// The first of the paths that exists; `present[i]` tells whether `paths[i]` does.
pub fn first_existing(paths: &Vec<String>, present: &Vec<bool>) -> (res: Option<String>)
    ensures
        opt_text(res) == first_present(texts(paths@), present@),
{
    let mut i: usize = 0;
    assert(texts(paths@).skip(0) =~= texts(paths@));
    assert(present@.skip(0) =~= present@);
    while i < paths.len() && i < present.len()
        invariant
            0 <= i <= paths@.len(),
            i <= present@.len(),
            first_present(texts(paths@), present@) == first_present(
                texts(paths@).skip(i as int),
                present@.skip(i as int),
            ),
        decreases paths@.len() - i,
    {
        let ghost ps = texts(paths@).skip(i as int);
        assert(ps[0] == paths@[i as int]@);
        assert(present@.skip(i as int)[0] == present@[i as int]);
        if present[i] {
            return Some(paths[i].clone());
        }
        assert(ps.drop_first() =~= texts(paths@).skip(i + 1));
        assert(present@.skip(i as int).drop_first() =~= present@.skip(i + 1));
        i = i + 1;
    }
    None
}

/// The first standard location that holds a browser.
pub fn known_system_browser(present: &Vec<bool>) -> (res: Option<String>)
    ensures
        opt_text(res) == first_present(system_paths(), present@),
{
    first_existing(&system_browser_paths(), present)
}

// -- the manifest ------------------------------------------------------------------------------
/// The first download for the platform that has a URL.
pub open spec fn first_url(downloads: Seq<JsonView>, platform: Seq<char>) -> Option<Seq<char>>
    decreases downloads.len(),
{
    if downloads.len() == 0 {
        None
    } else if downloads[0].str_at("platform"@) == Some(platform) && downloads[0].str_at("url"@)
        is Some {
        downloads[0].str_at("url"@)
    } else {
        first_url(downloads.drop_first(), platform)
    }
}

/// The `chrome-headless-shell` download of a version for the platform.
pub open spec fn version_url(entry: JsonView, platform: Seq<char>) -> Option<Seq<char>> {
    match entry.get("downloads"@) {
        Some(d) => match d.array_at("chrome-headless-shell"@) {
            Some(list) => first_url(list, platform),
            None => None,
        },
        None => None,
    }
}

/// The last version that has a download for the platform, with its URL. An entry without a
/// version name is passed over.
pub open spec fn latest_download(versions: Seq<JsonView>, platform: Seq<char>) -> Option<
    (Seq<char>, Seq<char>),
>
    decreases versions.len(),
{
    if versions.len() == 0 {
        None
    } else {
        match (versions.last().str_at("version"@), version_url(versions.last(), platform)) {
            (Some(v), Some(url)) => Some((v, url)),
            _ => latest_download(versions.drop_last(), platform),
        }
    }
}

/// The model of a picked download.
pub open spec fn pick_view(o: Option<(String, String)>) -> Option<(Seq<char>, Seq<char>)> {
    match o {
        Some(p) => Some((p.0@, p.1@)),
        None => None,
    }
}

fn find_url(entry: &Json, platform: &str) -> (res: Option<String>)
    ensures
        opt_text(res) == version_url(entry@, platform@),
{
    let list = match entry.get("downloads") {
        Some(d) => match d.array_at("chrome-headless-shell") {
            Some(list) => list,
            None => {
                return None;
            },
        },
        None => {
            return None;
        },
    };
    let ghost all = views(list@);
    assert(all.skip(0) =~= all);
    for i in 0..list.len()
        invariant
            all == views(list@),
            version_url(entry@, platform@) == first_url(all.skip(i as int), platform@),
    {
        assert(all.skip(i as int)[0] == list@[i as int]@);
        assert(all.skip(i as int).drop_first() =~= all.skip(i + 1));
        let wanted = match list[i].str_at("platform") {
            Some(p) => same(p, platform),
            None => false,
        };
        if wanted {
            match list[i].str_at("url") {
                Some(u) => {
                    return Some(u.to_owned());
                },
                None => {},
            }
        }
    }
    None
}

/// The latest version in the manifest that ships a `chrome-headless-shell` download for the
/// platform, with its URL. The manifest lists versions oldest first.
pub fn pick_download_url(manifest: &Json, platform: &str) -> (res: Option<(String, String)>)
    ensures
        pick_view(res) == match manifest@.array_at("versions"@) {
            Some(vs) => latest_download(vs, platform@),
            None => None,
        },
        manifest@.array_at("versions"@) is None ==> res is None,
        manifest@.array_at("versions"@) matches Some(vs) ==> match latest_download(vs, platform@) {
            Some(pick) => res is Some && res.unwrap().0@ == pick.0 && res.unwrap().1@ == pick.1,
            None => res is None,
        },
{
    let versions = match manifest.array_at("versions") {
        Some(vs) => vs,
        None => {
            return None;
        },
    };
    let ghost all = views(versions@);
    let mut n: usize = versions.len();
    assert(all.take(n as int) =~= all);
    while n > 0
        invariant
            0 <= n <= versions@.len(),
            all == views(versions@),
            manifest@.array_at("versions"@) == Some(all),
            latest_download(all, platform@) == latest_download(all.take(n as int), platform@),
        decreases n,
    {
        let ghost cur = all.take(n as int);
        assert(cur.last() == versions@[n - 1]@);
        assert(cur.drop_last() =~= all.take(n - 1));
        let entry = &versions[n - 1];
        match (entry.str_at("version"), find_url(entry, platform)) {
            (Some(version), Some(url)) => {
                return Some((version.to_owned(), url));
            },
            _ => {},
        }
        n = n - 1;
    }
    None
}

/// Whether an entry of the manifest offers a named version for the platform.
pub open spec fn offers(entry: JsonView, platform: Seq<char>) -> bool {
    entry.str_at("version"@) is Some && version_url(entry, platform) is Some
}

/// Whether the entry at `i` is the last that offers the platform, with this version and URL.
pub open spec fn is_latest(
    versions: Seq<JsonView>,
    platform: Seq<char>,
    i: int,
    pick: (Seq<char>, Seq<char>),
) -> bool {
    &&& 0 <= i < versions.len()
    &&& versions[i].str_at("version"@) == Some(pick.0)
    &&& version_url(versions[i], platform) == Some(pick.1)
    &&& forall|j: int| i < j < versions.len() ==> !offers(#[trigger] versions[j], platform)
}

/// The pick is the latest version that offers the platform: no later entry has both a name and
/// a URL. There is a pick exactly when some entry offers the platform.
pub proof fn law_pick_is_latest(versions: Seq<JsonView>, platform: Seq<char>)
    ensures
        match latest_download(versions, platform) {
            Some(pick) => exists|i: int| #[trigger] is_latest(versions, platform, i, pick),
            None => forall|i: int|
                0 <= i < versions.len() ==> !offers(#[trigger] versions[i], platform),
        },
    decreases versions.len(),
{
    if versions.len() > 0 {
        let front = versions.drop_last();
        let last = versions.len() - 1;
        if offers(versions[last], platform) {
            let pick = latest_download(versions, platform).unwrap();
            assert(is_latest(versions, platform, last, pick));
        } else {
            law_pick_is_latest(front, platform);
            assert forall|j: int| 0 <= j < last implies versions[j] == #[trigger] front[j] by {}
            match latest_download(versions, platform) {
                Some(pick) => {
                    let i = choose|i: int| #[trigger] is_latest(front, platform, i, pick);
                    assert(versions[i] == front[i]);
                    assert forall|j: int| i < j < versions.len() implies !offers(
                        #[trigger] versions[j],
                        platform,
                    ) by {
                        if j < last {
                            assert(!offers(front[j], platform));
                        }
                    }
                    assert(is_latest(versions, platform, i, pick));
                },
                None => {
                    assert forall|i: int| 0 <= i < versions.len() implies !offers(
                        #[trigger] versions[i],
                        platform,
                    ) by {
                        if i < last {
                            assert(!offers(front[i], platform));
                        }
                    }
                },
            }
        }
    }
}

// -- installing ------------------------------------------------------------------------------
/// The steps of an install.
#[derive(Clone, Copy, Debug, PartialEq, Eq, Structural)]
pub enum InstallState {
    /// Looking for a managed build.
    Looking,
    /// Fetching the manifest.
    Resolving,
    /// Looking for the picked version's binary.
    Checking,
    /// Downloading the archive.
    Downloading,
    /// Extracting it.
    Extracting,
    /// Looking for the binary that should be there now.
    Verifying,
    /// Making it executable.
    Finishing,
    Done,
}

/// An install under way.
pub struct Install {
    pub state: InstallState,
    pub os: String,
    pub platform: String,
    pub cache_dir: String,
    pub version: String,
    pub url: String,
}

/// What to do next.
pub enum InstallAction {
    /// Look for a managed build.
    FindInstalled,
    /// Fetch the JSON document at this URL.
    FetchManifest(String),
    /// Tell whether this file exists.
    CheckFile(String),
    /// Download this archive.
    Download(String),
    /// Empty this directory and extract the archive into it.
    Extract(String),
    /// Make this file executable.
    MakeExecutable(String),
    /// The install is over.
    Finish,
}

/// How an install begins.
pub enum InstallStart {
    /// Print the help and stop.
    Help,
    Begin(Install),
}

/// Whether help was asked for.
pub open spec fn wants_help(args: Seq<Seq<char>>) -> bool {
    args.contains("--help"@) || args.contains("-h"@)
}

fn help_asked(args: &Vec<String>) -> (res: bool)
    ensures
        res == wants_help(texts(args@)),
{
    for i in 0..args.len()
        invariant
            forall|k: int|
                0 <= k < i ==> texts(args@)[k] != "--help"@ && #[trigger] texts(args@)[k] != "-h"@,
    {
        if same(args[i].as_str(), "--help") || same(args[i].as_str(), "-h") {
            assert(texts(args@)[i as int] == args@[i as int]@);
            return true;
        }
        assert(texts(args@)[i as int] == args@[i as int]@);
    }
    false
}

/// Begins `kite install`: help, an error on platforms without builds, or the search for a
/// build that is already there.
pub fn run(args: &Vec<String>, os: &str, arch: &str, cache_dir: &str) -> (res: Result<
    InstallStart,
    String,
>)
    ensures
        match res {
            Ok(InstallStart::Help) => wants_help(texts(args@)),
            Ok(InstallStart::Begin(i)) => {
                &&& !wants_help(texts(args@))
                &&& platform_of(os@, arch@) == Some(i.platform@)
                &&& i.state == InstallState::Looking
                &&& i.os@ == os@
                &&& i.cache_dir@ == cache_dir@
                &&& i.version@.len() == 0
                &&& i.url@.len() == 0
            },
            Err(e) => !wants_help(texts(args@)) && platform_of(os@, arch@) is None && e@
                == no_platform_text(os@, arch@),
        },
{
    if help_asked(args) {
        return Ok(InstallStart::Help);
    }
    match current_platform(os, arch) {
        Ok(platform) => Ok(
            InstallStart::Begin(
                Install {
                    state: InstallState::Looking,
                    os: os.to_owned(),
                    platform: platform.to_owned(),
                    cache_dir: cache_dir.to_owned(),
                    version: String::new(),
                    url: String::new(),
                },
            ),
        ),
        Err(e) => Err(e),
    }
}

/// The permissions of the installed binary: what it has, and executable by everyone.
pub fn executable_mode(mode: u32) -> (res: u32)
    ensures
        res == mode | 0o755,
{
    mode | 0o755
}

impl Install {
    /// The binary of the picked version.
    pub open spec fn target(self) -> Seq<char> {
        binary_path_text(self.cache_dir@, self.version@, self.platform@, self.os@)
    }

    /// The directory of the picked version.
    pub open spec fn dest(self) -> Seq<char> {
        path_join(self.cache_dir@, self.version@, self.os@)
    }

    /// Nothing but the step has changed.
    pub open spec fn only_moved(self, before: Install, state: InstallState) -> bool {
        self == (Install { state, ..before })
    }

    fn target_path(&self) -> (res: String)
        ensures
            res@ == self.target(),
    {
        binary_path(
            self.cache_dir.as_str(),
            self.version.as_str(),
            self.platform.as_str(),
            self.os.as_str(),
        )
    }

    /// Goes on after the search for a managed build: one that is there ends the install.
    pub fn looked(&mut self, existing: Option<String>) -> (res: (String, InstallAction))
        requires
            old(self).state == InstallState::Looking,
        ensures
            match existing {
                Some(p) => {
                    &&& final(self).only_moved(*old(self), InstallState::Done)
                    &&& res.1 is Finish
                    &&& res.0@ == "chrome-headless-shell already installed at:\n  "@ + p@
                        + "\n(delete the cache dir to force a re-download)\n"@
                },
                None => {
                    &&& final(self).only_moved(*old(self), InstallState::Resolving)
                    &&& res.1 matches InstallAction::FetchManifest(url)
                    &&& url@ == CFT_MANIFEST_URL@
                    &&& res.0@ == "Resolving latest Chrome-for-Testing build for "@ + old(
                        self).platform@ + "...\n"@
                },
            },
    {
        match existing {
            Some(p) => {
                self.state = InstallState::Done;
                let mut say = "chrome-headless-shell already installed at:\n  ".to_owned();
                say.append(p.as_str());
                say.append("\n(delete the cache dir to force a re-download)\n");
                (say, InstallAction::Finish)
            },
            None => {
                self.state = InstallState::Resolving;
                let mut say = "Resolving latest Chrome-for-Testing build for ".to_owned();
                say.append(self.platform.as_str());
                say.append("...\n");
                (say, InstallAction::FetchManifest(CFT_MANIFEST_URL.to_owned()))
            },
        }
    }

    /// Goes on after the manifest was fetched: picks the version to install.
    pub fn resolved(&mut self, manifest: &Json) -> (res: Result<InstallAction, String>)
        requires
            old(self).state == InstallState::Resolving,
        ensures
            match match manifest@.array_at("versions"@) {
                Some(vs) => latest_download(vs, old(self).platform@),
                None => None,
            } {
                Some(pick) => {
                    &&& res matches Ok(InstallAction::CheckFile(path))
                    &&& path@ == final(self).target()
                    &&& final(self).version@ == pick.0
                    &&& final(self).url@ == pick.1
                    &&& final(self).state == InstallState::Checking
                    &&& *final(self) == (Install {
                        state: InstallState::Checking,
                        version: final(self).version,
                        url: final(self).url,
                        ..*old(self)
                    })
                },
                None => res is Err && res->Err_0@
                    == "no chrome-headless-shell download found for platform "@ + old(
                    self).platform@ && *final(self) == *old(self),
            },
    {
        match pick_download_url(manifest, self.platform.as_str()) {
            Some(pick) => {
                self.version = pick.0;
                self.url = pick.1;
                self.state = InstallState::Checking;
                Ok(InstallAction::CheckFile(self.target_path()))
            },
            None => {
                let mut e = "no chrome-headless-shell download found for platform ".to_owned();
                e.append(self.platform.as_str());
                Err(e)
            },
        }
    }

    /// Goes on after the look for the picked version's binary: one that is there ends the
    /// install.
    pub fn checked(&mut self, present: bool) -> (res: (String, InstallAction))
        requires
            old(self).state == InstallState::Checking,
        ensures
            if present {
                &&& final(self).only_moved(*old(self), InstallState::Done)
                &&& res.1 is Finish
                &&& res.0@ == "chrome-headless-shell "@ + old(self).version@
                    + " already present:\n  "@ + old(self).target() + "\n"@
            } else {
                &&& final(self).only_moved(*old(self), InstallState::Downloading)
                &&& res.1 matches InstallAction::Download(url)
                &&& url@ == old(self).url@
                &&& res.0@ == "Downloading chrome-headless-shell "@ + old(self).version@
                    + "...\n  "@ + old(self).url@ + "\n"@
            },
    {
        if present {
            let target = self.target_path();
            self.state = InstallState::Done;
            let mut say = "chrome-headless-shell ".to_owned();
            say.append(self.version.as_str());
            say.append(" already present:\n  ");
            say.append(target.as_str());
            say.append("\n");
            (say, InstallAction::Finish)
        } else {
            self.state = InstallState::Downloading;
            let mut say = "Downloading chrome-headless-shell ".to_owned();
            say.append(self.version.as_str());
            say.append("...\n  ");
            say.append(self.url.as_str());
            say.append("\n");
            (say, InstallAction::Download(self.url.clone()))
        }
    }

    /// Goes on after the download.
    pub fn downloaded(&mut self, bytes: u64) -> (res: (String, InstallAction))
        requires
            old(self).state == InstallState::Downloading,
        ensures
            final(self).only_moved(*old(self), InstallState::Extracting),
            res.1 matches InstallAction::Extract(dir) && dir@ == old(self).dest(),
            res.0@ == "Extracting "@ + decimal(bytes as int) + " bytes to "@ + old(self).dest()
                + "...\n"@,
    {
        self.state = InstallState::Extracting;
        let dest = version_dir(
            self.cache_dir.as_str(),
            self.version.as_str(),
            self.os.as_str(),
        );
        let mut say = "Extracting ".to_owned();
        let n = decimal_text(bytes);
        say.append(n.as_str());
        say.append(" bytes to ");
        say.append(dest.as_str());
        say.append("...\n");
        (say, InstallAction::Extract(dest))
    }

    /// Goes on after the extraction.
    pub fn extracted(&mut self) -> (res: InstallAction)
        requires
            old(self).state == InstallState::Extracting,
        ensures
            final(self).only_moved(*old(self), InstallState::Verifying),
            res matches InstallAction::CheckFile(path) && path@ == old(self).target(),
    {
        let target = self.target_path();
        self.state = InstallState::Verifying;
        InstallAction::CheckFile(target)
    }

    /// Goes on after the look for the extracted binary, which must be there.
    pub fn verified(&mut self, present: bool) -> (res: Result<InstallAction, String>)
        requires
            old(self).state == InstallState::Verifying,
        ensures
            if present {
                &&& final(self).only_moved(*old(self), InstallState::Finishing)
                &&& res matches Ok(InstallAction::MakeExecutable(path))
                &&& path@ == old(self).target()
            } else {
                &&& *final(self) == *old(self)
                &&& res is Err
                &&& res->Err_0@
                    == "extraction completed but the expected binary was not found at "@ + old(
                    self).target()
            },
    {
        let target = self.target_path();
        if present {
            self.state = InstallState::Finishing;
            Ok(InstallAction::MakeExecutable(target))
        } else {
            let mut e = "extraction completed but the expected binary was not found at ".to_owned();
            e.append(target.as_str());
            Err(e)
        }
    }

    /// Ends the install.
    pub fn finished(&mut self) -> (res: (String, InstallAction))
        requires
            old(self).state == InstallState::Finishing,
        ensures
            final(self).only_moved(*old(self), InstallState::Done),
            res.1 is Finish,
            res.0@ == "\nInstalled chrome-headless-shell "@ + old(self).version@ + "\nBinary: "@
                + old(self).target()
                + "\nThe engine will use it automatically when no BROWSER_EXECUTABLE or system Chrome is set.\n"@,
    {
        let target = self.target_path();
        self.state = InstallState::Done;
        let mut say = "\nInstalled chrome-headless-shell ".to_owned();
        say.append(self.version.as_str());
        say.append("\nBinary: ");
        say.append(target.as_str());
        say.append(
            "\nThe engine will use it automatically when no BROWSER_EXECUTABLE or system Chrome is set.\n",
        );
        (say, InstallAction::Finish)
    }
}

// -- laws ------------------------------------------------------------------------------
/// The platforms that builds are published for, and the name of their binary.
pub proof fn law_platforms(os: Seq<char>, arch: Seq<char>)
    ensures
        platform_of("macos"@, "aarch64"@) == Some("mac-arm64"@),
        platform_of("macos"@, "x86_64"@) == Some("mac-x64"@),
        platform_of("linux"@, "x86_64"@) == Some("linux64"@),
        platform_of("windows"@, "x86_64"@) == Some("win64"@),
        platform_of(os, arch) is Some ==> (os == "macos"@ && (arch == "aarch64"@ || arch
            == "x86_64"@)) || ((os == "linux"@ || os == "windows"@) && arch == "x86_64"@),
        os == "windows"@ ==> binary_name(os) == "chrome-headless-shell.exe"@,
        os != "windows"@ ==> binary_name(os) == "chrome-headless-shell"@,
        no_platform_text(os, arch) == "no Chrome-for-Testing chrome-headless-shell build for "@ + os
            + "/"@ + arch + " — set BROWSER_EXECUTABLE to an existing Chrome/Chromium instead"@,
{
    reveal_strlit("macos");
    reveal_strlit("linux");
    reveal_strlit("windows");
    reveal_strlit("aarch64");
    reveal_strlit("x86_64");
    assert("macos"@[0] == 'm');
    assert("linux"@[0] == 'l');
    assert("windows"@[0] == 'w');
    assert("aarch64"@[0] == 'a');
    assert("x86_64"@[0] == 'x');
}

/// Where builds are kept: below the directory that is set, else the platform's, else the
/// temporary one, in `kitewright/chrome-headless-shell`; a version's binary lies in the
/// directory of its platform, and that in the version's.
pub proof fn law_cache_layout(
    dir: Seq<char>,
    cache: Seq<char>,
    platform_cache: Option<Seq<char>>,
    temp: Seq<char>,
    version: Seq<char>,
    platform: Seq<char>,
    os: Seq<char>,
)
    ensures
        dir.len() > 0 ==> cache_root_text(Some(dir), platform_cache, temp, os) == path_join(
            path_join(dir, "kitewright"@, os),
            "chrome-headless-shell"@,
            os,
        ),
        cache_root_text(None, Some(cache), temp, os) == path_join(
            path_join(cache, "kitewright"@, os),
            "chrome-headless-shell"@,
            os,
        ),
        cache_root_text(None, None, temp, os) == path_join(
            path_join(temp, "kitewright"@, os),
            "chrome-headless-shell"@,
            os,
        ),
        dir.len() == 0 ==> cache_root_text(Some(dir), platform_cache, temp, os) == cache_root_text(
            None,
            platform_cache,
            temp,
            os,
        ),
        binary_path_text(cache, version, platform, os) == path_join(
            path_join(path_join(cache, version, os), "chrome-headless-shell-"@ + platform, os),
            binary_name(os),
            os,
        ),
{
}

/// The key of a version is the numbers between its dots; what is no number counts as zero.
pub proof fn law_version_keys(v: Seq<char>, s: Seq<char>, n: u64)
    ensures
        key_of(s.push('.') + v) == key_of(s) + key_of(v),
        key_of(decimal(n as int)) == seq![n],
        parse_number(s, u64::MAX as int) is None && !s.contains('.') ==> key_of(s) == seq![0u64],
        parse_number(s, u64::MAX as int) == Some(n as int) && !s.contains('.') ==> key_of(s)
            == seq![n],
{
    law_separator_parts_text(s, '.', v);
    assert(key_of(s.push('.') + v) =~= key_of(s) + key_of(v));
    law_decimal_is_read_back(n as int);
    law_numbers_round_trip(n as int, u64::MAX as int);
    let d = decimal(n as int);
    assert(!d.contains('.')) by {
        if d.contains('.') {
            let i = choose|i: int| 0 <= i < d.len() && d[i] == '.';
            assert(crate::text::is_digit(d[i]));
        }
    }
    lemma_split_single(d, '.');
    assert(key_of(d) =~= seq![n]);
    if !s.contains('.') {
        lemma_split_single(s, '.');
        if parse_number(s, u64::MAX as int) is None {
            assert(key_of(s) =~= seq![0u64]);
        }
        if parse_number(s, u64::MAX as int) == Some(n as int) {
            assert(key_of(s) =~= seq![n]);
        }
    }
}

/// Versions order by the first number in which they differ; a version that another only goes on
/// from is the older one.
pub proof fn law_first_difference_orders(
    common: Seq<u64>,
    x: u64,
    y: u64,
    a: Seq<u64>,
    b: Seq<u64>,
)
    requires
        x != y,
    ensures
        key_less(common + seq![x] + a, common + seq![y] + b) <==> x < y,
        key_less(common, common + seq![x] + a),
        !key_less(common + seq![x] + a, common),
        !key_less(common, common),
    decreases common.len(),
{
    let p = common + seq![x] + a;
    let q = common + seq![y] + b;
    if common.len() == 0 {
        assert(p[0] == x);
        assert(q[0] == y);
    } else {
        let rest = common.drop_first();
        law_first_difference_orders(rest, x, y, a, b);
        assert(p.drop_first() =~= rest + seq![x] + a);
        assert(q.drop_first() =~= rest + seq![y] + b);
        assert(p[0] == common[0]);
        assert(q[0] == common[0]);
    }
}

/// Where the binary of a version is: in its directory where it stands there, else in the
/// sub-directory that holds it.
pub proof fn law_installed_paths(root: Seq<char>, v: InstalledVersion, os: Seq<char>)
    ensures
        has_binary(v) <==> v.direct || v.nested is Some,
        v.direct ==> installed_path(root, v, os) == path_join(
            path_join(root, v.name@, os),
            binary_name(os),
            os,
        ),
        !v.direct ==> (v.nested matches Some(sub) ==> installed_path(root, v, os) == path_join(
            path_join(path_join(root, v.name@, os), sub@, os),
            binary_name(os),
            os,
        )),
{
}

/// The build that is found is the newest: no other that holds the binary is newer, and of equal
/// ones it is the first.
pub proof fn law_found_build_is_newest(
    root: Seq<char>,
    vs: Seq<InstalledVersion>,
    os: Seq<char>,
    path: Seq<char>,
)
    requires
        is_found(Some(path), root, vs, os),
    ensures
        exists|i: int|
            0 <= i < vs.len() && ((#[trigger] vs[i]).direct || vs[i].nested is Some) && path
                == installed_path(root, vs[i], os) && (forall|j: int|
                0 <= j < vs.len() && ((#[trigger] vs[j]).direct || vs[j].nested is Some)
                    ==> !key_less(key_of(vs[i].name@), key_of(vs[j].name@))) && (forall|j: int|
                0 <= j < i && ((#[trigger] vs[j]).direct || vs[j].nested is Some) ==> key_of(
                    vs[j].name@,
                ) != key_of(vs[i].name@)),
{
    let i = choose|i: int|
        #[trigger] is_newest(vs, i) && path == installed_path(root, vs[i], os);
    assert forall|j: int| 0 <= j < vs.len() && ((#[trigger] vs[j]).direct || vs[j].nested is Some) implies !key_less(
        key_of(vs[i].name@),
        key_of(vs[j].name@),
    ) by {
        assert(has_binary(vs[j]));
    }
    assert forall|j: int| 0 <= j < i && ((#[trigger] vs[j]).direct || vs[j].nested is Some) implies key_of(
        vs[j].name@,
    ) != key_of(vs[i].name@) by {
        assert(has_binary(vs[j]));
        lemma_key_less_total(key_of(vs[j].name@), key_of(vs[i].name@));
    }
    assert(has_binary(vs[i]));
}

/// The standard locations, in the order they are tried.
pub proof fn law_system_locations()
    ensures
        system_paths().len() == 12,
        system_paths()[0] == "/Applications/Google Chrome.app/Contents/MacOS/Google Chrome"@,
        system_paths()[1] == "/Applications/Chromium.app/Contents/MacOS/Chromium"@,
        system_paths()[2] == "/Applications/Brave Browser.app/Contents/MacOS/Brave Browser"@,
        system_paths()[3] == "/Applications/Microsoft Edge.app/Contents/MacOS/Microsoft Edge"@,
        system_paths()[4] == "/usr/bin/google-chrome"@,
        system_paths()[5] == "/usr/bin/google-chrome-stable"@,
        system_paths()[6] == "/usr/bin/chromium"@,
        system_paths()[7] == "/usr/bin/chromium-browser"@,
        system_paths()[8] == "/snap/bin/chromium"@,
        system_paths()[9] == "/opt/google/chrome/chrome"@,
        system_paths()[10] == "C:\\Program Files\\Google\\Chrome\\Application\\chrome.exe"@,
        system_paths()[11] == "C:\\Program Files (x86)\\Google\\Chrome\\Application\\chrome.exe"@,
{
}

/// The first path that exists is the one found: it exists, and none before it does.
pub proof fn law_first_existing_path(paths: Seq<Seq<char>>, present: Seq<bool>, i: int)
    requires
        0 <= i < paths.len(),
        i < present.len(),
        forall|k: int| 0 <= k < i ==> !(#[trigger] present[k]),
    ensures
        present[i] ==> first_present(paths, present) == Some(paths[i]),
        !present[i] && (i + 1 == paths.len() || i + 1 == present.len()) ==> first_present(
            paths,
            present,
        ) is None,
        first_present(paths, Seq::<bool>::empty()) is None,
        first_present(Seq::<Seq<char>>::empty(), present) is None,
    decreases i,
{
    if i > 0 {
        assert(!present[0]);
        let p = present.drop_first();
        assert forall|k: int| 0 <= k < i - 1 implies !(#[trigger] p[k]) by {
            assert(p[k] == present[k + 1]);
        }
        law_first_existing_path(paths.drop_first(), p, i - 1);
        assert(paths.drop_first()[i - 1] == paths[i]);
        assert(p[i - 1] == present[i]);
    } else if !present[0] && (paths.len() == 1 || present.len() == 1) {
        assert(first_present(paths.drop_first(), present.drop_first()) is None);
    }
}

/// The download of a version for a platform: the first of its list that is for the platform and
/// has a URL.
pub proof fn law_first_download(downloads: Seq<JsonView>, platform: Seq<char>, i: int)
    requires
        0 <= i <= downloads.len(),
        forall|k: int|
            0 <= k < i ==> (#[trigger] downloads[k]).str_at("platform"@) != Some(platform)
                || downloads[k].str_at("url"@) is None,
        i < downloads.len() ==> downloads[i].str_at("platform"@) == Some(platform)
            && downloads[i].str_at("url"@) is Some,
    ensures
        i < downloads.len() ==> first_url(downloads, platform) == downloads[i].str_at("url"@),
        i == downloads.len() ==> first_url(downloads, platform) is None,
    decreases i,
{
    if i > 0 {
        let rest = downloads.drop_first();
        assert(downloads[0].str_at("platform"@) != Some(platform) || downloads[0].str_at("url"@)
            is None);
        assert forall|k: int| 0 <= k < i - 1 implies (#[trigger] rest[k]).str_at("platform"@)
            != Some(platform) || rest[k].str_at("url"@) is None by {
            assert(rest[k] == downloads[k + 1]);
        }
        if i < downloads.len() {
            assert(rest[i - 1] == downloads[i]);
        }
        law_first_download(rest, platform, i - 1);
    }
}

/// The downloads of a version stand under `downloads` and `chrome-headless-shell`.
pub proof fn law_downloads_of_a_version(
    entry: JsonView,
    d: JsonView,
    list: Seq<JsonView>,
    platform: Seq<char>,
)
    ensures
        entry.get("downloads"@) == Some(d) && d.array_at("chrome-headless-shell"@) == Some(list)
            ==> version_url(entry, platform) == first_url(list, platform),
        entry.get("downloads"@) == Some(d) && d.array_at("chrome-headless-shell"@) is None
            ==> version_url(entry, platform) is None,
        entry.get("downloads"@) is None ==> version_url(entry, platform) is None,
{
}

/// Help is asked for by `--help` or `-h`, wherever it stands; a step of an install changes
/// nothing but where it is.
pub proof fn law_install_steps(
    args: Seq<Seq<char>>,
    after: Install,
    before: Install,
    state: InstallState,
)
    ensures
        wants_help(args) <==> args.contains("--help"@) || args.contains("-h"@),
        after.only_moved(before, state) ==> after.state == state && after.os == before.os
            && after.platform == before.platform && after.cache_dir == before.cache_dir
            && after.version == before.version && after.url == before.url,
        before.target() == binary_path_text(
            before.cache_dir@,
            before.version@,
            before.platform@,
            before.os@,
        ),
        before.dest() == path_join(before.cache_dir@, before.version@, before.os@),
{
}

} // verus!
