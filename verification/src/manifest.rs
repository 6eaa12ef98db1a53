//! Driver manifests, and which drivers can be started.
use vstd::prelude::*;

use crate::protocol::PROTOCOL_MAJOR;
use crate::text::{
    cat2, cat4, debug_list, debug_list_text, decimal, decimals_mean_their_number, is_digit, lowered,
    same_ignoring_ascii_case, same_text, texts_view,
};

verus! {

// ---------------------------------------------------------------------------
// Types
// ---------------------------------------------------------------------------

/// What `driver.toml` says of a driver.
#[derive(Debug, Clone, PartialEq)]
pub struct DriverManifest {
    pub id: String,
    pub name: String,
    pub version: String,
    pub executable: String,
    pub protocol_major: u32,
    pub protocol_minor: u32,
    pub sdk: Option<String>,
    pub os: Option<Vec<String>>,
    pub arch: Option<Vec<String>>,
}

/// A driver that was found.
#[derive(Debug, Clone, PartialEq)]
pub struct DiscoveredDriver {
    pub manifest: DriverManifest,
    pub manifest_dir: String,
    pub executable_path: Option<String>,
    pub platform_ok: bool,
    pub platform_reason: Option<String>,
    pub protocol_ok: bool,
}

/// A manifest that was read, with the directory that it was read from and the executable that was
/// found for it.
#[derive(Debug, Clone, PartialEq)]
pub struct FoundManifest {
    pub manifest: DriverManifest,
    pub dir: String,
    pub executable_path: Option<String>,
}

/// The machine that drivers are to run on.
#[derive(Debug, Clone, PartialEq)]
pub struct Host {
    pub os: String,
    pub arch: String,
}

impl DiscoveredDriver {
    /// Whether the driver can be started: it is there, it is made for this machine, and it speaks
    /// the protocol.
    pub fn launchable(&self) -> (r: bool)
        ensures
            r == (self.executable_path is Some && self.platform_ok && self.protocol_ok),
    {
        self.executable_path.is_some() && self.platform_ok && self.protocol_ok
    }
}

// ---------------------------------------------------------------------------
// Versions
// ---------------------------------------------------------------------------

/// Whether a text is three numbers with a point between each two.
pub open spec fn semver_like(v: Seq<char>) -> bool {
    exists|a: int, b: int| #[trigger] splits_in_three(v, a, b)
}

/// Whether the points of a text stand at `a` and at `b`, with digits alone before, between and
/// behind them.
pub open spec fn splits_in_three(v: Seq<char>, a: int, b: int) -> bool {
    &&& 0 < a
    &&& a + 1 < b
    &&& b + 1 < v.len()
    &&& v[a] == '.'
    &&& v[b] == '.'
    &&& forall|i: int| 0 <= i < v.len() && i != a && i != b ==> is_digit(#[trigger] v[i])
}

pub fn is_semver_like(v: &str) -> (r: bool)
    ensures
        r == semver_like(v@),
{
    let n: usize = v.unicode_len();
    let mut i: usize = 0;
    let mut points: u8 = 0;
    let mut first: usize = 0;
    let mut second: usize = 0;
    let ghost s = v@;
    while i < n
        invariant
            n == s.len(),
            s == v@,
            i <= n,
            points <= 2,
            points == 0 ==> forall|j: int| 0 <= j < i ==> is_digit(#[trigger] s[j]),
            points >= 1 ==> 0 < first < i && s[first as int] == '.',
            points == 1 ==> forall|j: int|
                0 <= j < i && j != first ==> is_digit(#[trigger] s[j]),
            points == 2 ==> first + 1 < second < i && s[second as int] == '.' && forall|j: int|
                0 <= j < i && j != first && j != second ==> is_digit(#[trigger] s[j]),
        decreases n - i,
    {
        let c: char = v.get_char(i);
        if c == '.' {
            if points == 2 || i == 0 || (points == 1 && i == first + 1) {
                assert(!semver_like(s)) by {
                    assert forall|a: int, b: int| !#[trigger] splits_in_three(s, a, b) by {
                        if splits_in_three(s, a, b) {
                            if points == 2 {
                                assert(s[first as int] == '.');
                                assert(s[second as int] == '.');
                                assert(!is_digit(s[first as int]));
                                assert(!is_digit(s[second as int]));
                                assert(!is_digit(s[i as int]));
                            } else {
                                assert(!is_digit(s[i as int]));
                                if points == 1 {
                                    assert(!is_digit(s[first as int]));
                                }
                            }
                        }
                    }
                }
                return false;
            }
            if points == 0 {
                first = i;
            } else {
                second = i;
            }
            points = points + 1;
        } else if !('0' <= c && c <= '9') {
            assert(!semver_like(s)) by {
                assert forall|a: int, b: int| !#[trigger] splits_in_three(s, a, b) by {
                    assert(s[i as int] == c);
                    assert(!is_digit(s[i as int]));
                }
            }
            return false;
        }
        i = i + 1;
    }
    let r: bool = points == 2 && second + 1 < n;
    proof {
        if r {
            assert(splits_in_three(s, first as int, second as int));
        } else {
            assert forall|a: int, b: int| !#[trigger] splits_in_three(s, a, b) by {
                if splits_in_three(s, a, b) {
                    assert(!is_digit(s[a]) && !is_digit(s[b]));
                    if points == 2 {
                        assert(!is_digit(s[first as int]) && !is_digit(s[second as int]));
                    }
                }
            }
        }
    }
    r
}

// ---------------------------------------------------------------------------
// Platforms
// ---------------------------------------------------------------------------

/// Whether a list names something, whatever the case of the letters.
pub open spec fn names(list: Seq<String>, name: Seq<char>) -> bool {
    exists|i: int| 0 <= i < list.len() && lowered((#[trigger] list[i])@) == lowered(name)
}

/// Why a driver is not made for a machine, if it is not.
pub open spec fn platform_fault(m: DriverManifest, host: Host) -> Option<Seq<char>> {
    if m.os is Some && !names(m.os->0@, host.os@) {
        Some(
            "PLATFORM_MISMATCH: os "@ + host.os@ + " not in "@ + debug_list(
                texts_view(m.os->0@),
            ),
        )
    } else if m.arch is Some && !names(m.arch->0@, host.arch@) {
        Some(
            "PLATFORM_MISMATCH: arch "@ + host.arch@ + " not in "@ + debug_list(
                texts_view(m.arch->0@),
            ),
        )
    } else {
        None
    }
}

fn list_names(list: &Vec<String>, name: &str) -> (r: bool)
    ensures
        r == names(list@, name@),
{
    let mut i: usize = 0;
    while i < list.len()
        invariant
            i <= list.len(),
            forall|j: int| 0 <= j < i ==> lowered((#[trigger] list@[j])@) != lowered(name@),
        decreases list.len() - i,
    {
        if same_ignoring_ascii_case(list[i].as_str(), name) {
            assert(lowered(list@[i as int]@) == lowered(name@));
            return true;
        }
        i = i + 1;
    }
    false
}

/// Whether a driver is made for a machine, and if not, why.
pub fn check_platform(m: &DriverManifest, host: &Host) -> (r: (bool, Option<String>))
    ensures
        r.0 == platform_fault(*m, *host) is None,
        match r.1 {
            Some(s) => platform_fault(*m, *host) == Some(s@),
            None => platform_fault(*m, *host) is None,
        },
{
    match &m.os {
        Some(list) => {
            if !list_names(list, host.os.as_str()) {
                return (
                    false,
                    Some(
                        cat4(
                            "PLATFORM_MISMATCH: os ",
                            host.os.as_str(),
                            " not in ",
                            debug_list_text(list).as_str(),
                        ),
                    ),
                );
            }
        },
        None => {},
    }
    match &m.arch {
        Some(list) => {
            if !list_names(list, host.arch.as_str()) {
                return (
                    false,
                    Some(
                        cat4(
                            "PLATFORM_MISMATCH: arch ",
                            host.arch.as_str(),
                            " not in ",
                            debug_list_text(list).as_str(),
                        ),
                    ),
                );
            }
        },
        None => {},
    }
    (true, None)
}

// ---------------------------------------------------------------------------
// Executables
// ---------------------------------------------------------------------------

/// A place where the executable of a driver may be: in a directory above that of the manifest (the
/// directory itself where `up` is zero), in `target` and one of its directories where one is
/// named, under a file name.
#[derive(Debug, Clone, PartialEq)]
pub struct ExecutablePlace {
    pub up: usize,
    pub target: Option<String>,
    pub file: String,
}

/// What an [`ExecutablePlace`] is.
pub type PlaceV = (int, Option<Seq<char>>, Seq<char>);

impl View for ExecutablePlace {
    type V = PlaceV;

    open spec fn view(&self) -> PlaceV {
        (
            self.up as int,
            match self.target {
                Some(t) => Some(t@),
                None => None,
            },
            self.file@,
        )
    }
}

/// The places in a build tree some directories up.
pub open spec fn build_places(exe: Seq<char>, up: int) -> Seq<PlaceV> {
    seq![
        (up, Some("debug"@), exe),
        (up, Some("debug"@), exe + ".exe"@),
        (up, Some("release"@), exe),
        (up, Some("release"@), exe + ".exe"@),
    ]
}

/// The places from the directory of the manifest up to `up` directories above it.
pub open spec fn places(exe: Seq<char>, up: int) -> Seq<PlaceV>
    decreases up,
{
    if up <= 0 {
        seq![(0int, None, exe), (0int, None, exe + ".exe"@)]
    } else {
        places(exe, up - 1) + build_places(exe, up)
    }
}

fn push_place(list: &mut Vec<ExecutablePlace>, up: usize, target: Option<&str>, file: String)
    ensures
        final(list)@.map_values(|p: ExecutablePlace| p@) == old(list)@.map_values(
            |p: ExecutablePlace| p@,
        ).push(
            (
                up as int,
                match target {
                    Some(t) => Some(t@),
                    None => None,
                },
                file@,
            ),
        ),
{
    let target: Option<String> = match target {
        Some(t) => Some(t.to_owned()),
        None => None,
    };
    let p: ExecutablePlace = ExecutablePlace { up, target, file };
    let ghost before = list@.map_values(|p: ExecutablePlace| p@);
    list.push(p);
    assert(list@.map_values(|p: ExecutablePlace| p@) =~= before.push(p@));
}

/// The places where the executable of a driver may be, the first that holds it being taken: beside
/// the manifest, and then in the build trees of at most five directories above it, as far as there
/// are any.
pub fn resolve_executable(exe: &str, ancestors: usize) -> (r: Vec<ExecutablePlace>)
    ensures
        r@.map_values(|p: ExecutablePlace| p@) == places(
            exe@,
            if ancestors < 5 {
                ancestors as int
            } else {
                5
            },
        ),
{
    let last: usize = if ancestors < 5 {
        ancestors
    } else {
        5
    };
    let mut list: Vec<ExecutablePlace> = Vec::new();
    let other: String = cat2(exe, ".exe");
    push_place(&mut list, 0, None, exe.to_owned());
    push_place(&mut list, 0, None, other.clone());
    assert(list@.map_values(|p: ExecutablePlace| p@) =~= places(exe@, 0));
    let mut up: usize = 0;
    while up < last
        invariant
            up <= last <= 5,
            other@ == exe@ + ".exe"@,
            list@.map_values(|p: ExecutablePlace| p@) == places(exe@, up as int),
        decreases last - up,
    {
        let ghost before = places(exe@, up as int);
        up = up + 1;
        push_place(&mut list, up, Some("debug"), exe.to_owned());
        push_place(&mut list, up, Some("debug"), other.clone());
        push_place(&mut list, up, Some("release"), exe.to_owned());
        push_place(&mut list, up, Some("release"), other.clone());
        assert(list@.map_values(|p: ExecutablePlace| p@) =~= before + build_places(
            exe@,
            up as int,
        ));
    }
    list
}

// ---------------------------------------------------------------------------
// Which drivers are taken
// ---------------------------------------------------------------------------

/// Whether a manifest is taken: none before it has the same id, and its version is one.
pub open spec fn is_taken(found: Seq<FoundManifest>, i: int) -> bool {
    &&& forall|j: int|
        0 <= j < i ==> (#[trigger] found[j]).manifest.id@ != found[i].manifest.id@
    &&& semver_like(found[i].manifest.version@)
}

/// Whether a driver is what was made of a manifest.
pub open spec fn is_made_of(d: DiscoveredDriver, f: FoundManifest, host: Host) -> bool {
    &&& d.manifest == f.manifest
    &&& d.manifest_dir == f.dir
    &&& d.executable_path == f.executable_path
    &&& d.platform_ok == platform_fault(f.manifest, host) is None
    &&& match d.platform_reason {
        Some(s) => platform_fault(f.manifest, host) == Some(s@),
        None => platform_fault(f.manifest, host) is None,
    }
    &&& d.protocol_ok == (f.manifest.protocol_major == PROTOCOL_MAJOR)
}

/// The places of the manifests that are taken, up to `n`.
pub open spec fn taken(found: Seq<FoundManifest>, n: int) -> Seq<int>
    decreases n,
{
    if n <= 0 {
        Seq::empty()
    } else if is_taken(found, n - 1) {
        taken(found, n - 1).push(n - 1)
    } else {
        taken(found, n - 1)
    }
}

/// The drivers of the manifests that are taken, in their order. A manifest whose id has been seen
/// is left out, and so is one whose version is none; an id counts as seen either way.
pub fn scan_drivers(found: Vec<FoundManifest>, host: &Host) -> (r: Vec<DiscoveredDriver>)
    ensures
        r@.len() == taken(found@, found@.len() as int).len(),
        forall|k: int|
            0 <= k < r@.len() ==> is_made_of(
                #[trigger] r@[k],
                found@[taken(found@, found@.len() as int)[k]],
                *host,
            ),
{
    let ghost all = found@;
    let mut out: Vec<DiscoveredDriver> = Vec::new();
    let mut seen: Vec<String> = Vec::new();
    for f in manifests: found
        invariant
            manifests.seq() == all,
            found@ == all,
            seen@.len() == manifests.index(),
            forall|j: int| 0 <= j < seen@.len() ==> (#[trigger] seen@[j])@ == all[j].manifest.id@,
            out@.len() == taken(all, manifests.index() as int).len(),
            forall|k: int|
                0 <= k < out@.len() ==> is_made_of(
                    #[trigger] out@[k],
                    all[taken(all, manifests.index() as int)[k]],
                    *host,
                ),
    {
        let ghost i = manifests.index() as int;
        assert(f == all[i]);
        let mut new: bool = true;
        let mut j: usize = 0;
        while j < seen.len()
            invariant
                j <= seen.len(),
                seen@.len() == i,
                f == all[i],
                forall|j: int|
                    0 <= j < seen@.len() ==> (#[trigger] seen@[j])@ == all[j].manifest.id@,
                new == forall|k: int|
                    0 <= k < j ==> (#[trigger] all[k]).manifest.id@ != f.manifest.id@,
            decreases seen.len() - j,
        {
            if same_text(seen[j].as_str(), f.manifest.id.as_str()) {
                assert(seen@[j as int]@ == all[j as int].manifest.id@);
                new = false;
            }
            j = j + 1;
        }
        seen.push(f.manifest.id.clone());
        if new && is_semver_like(f.manifest.version.as_str()) {
            assert(is_taken(all, i));
            let (platform_ok, platform_reason) = check_platform(&f.manifest, host);
            let protocol_ok: bool = f.manifest.protocol_major == PROTOCOL_MAJOR;
            let d: DiscoveredDriver = DiscoveredDriver {
                manifest: f.manifest,
                manifest_dir: f.dir,
                executable_path: f.executable_path,
                platform_ok,
                platform_reason,
                protocol_ok,
            };
            out.push(d);
        } else {
            assert(!is_taken(all, i));
        }
    }
    out
}

/// No two drivers that are taken have the same id.
pub proof fn taken_ids_are_distinct(found: Seq<FoundManifest>, n: int, a: int, b: int)
    requires
        0 <= n <= found.len(),
        0 <= a < b < taken(found, n).len(),
    ensures
        found[taken(found, n)[a]].manifest.id@ != found[taken(found, n)[b]].manifest.id@,
{
    lemma_taken(found, n);
    let t = taken(found, n);
    assert(t[a] < t[b]);
    assert(is_taken(found, t[b]));
}

proof fn lemma_taken(found: Seq<FoundManifest>, n: int)
    requires
        0 <= n <= found.len(),
    ensures
        forall|k: int|
            0 <= k < taken(found, n).len() ==> 0 <= #[trigger] taken(found, n)[k] < n && is_taken(
                found,
                taken(found, n)[k],
            ),
        forall|a: int, b: int|
            0 <= a < b < taken(found, n).len() ==> #[trigger] taken(found, n)[a]
                < #[trigger] taken(found, n)[b],
    decreases n,
{
    if n > 0 {
        lemma_taken(found, n - 1);
        let before = taken(found, n - 1);
        let t = taken(found, n);
        assert forall|k: int| 0 <= k < t.len() implies 0 <= #[trigger] t[k] < n && is_taken(
            found,
            t[k],
        ) by {
            if k < before.len() {
                assert(t[k] == before[k]);
            }
        }
        assert forall|a: int, b: int| 0 <= a < b < t.len() implies #[trigger] t[a]
            < #[trigger] t[b] by {
            assert(t[a] == before[a]);
            if b < before.len() {
                assert(t[b] == before[b]);
            }
        }
    }
}

/// A driver runs on a host exactly where its manifest names no system or the host's, and no
/// machine or the host's, in whatever case.
pub proof fn drivers_run_where_their_manifest_says(m: DriverManifest, host: Host)
    ensures
        platform_fault(m, host) is None <==> ((m.os is None || exists|i: int|
            0 <= i < m.os->0@.len() && lowered((#[trigger] m.os->0@[i])@) == lowered(host.os@)) && (
        m.arch is None || exists|i: int|
            0 <= i < m.arch->0@.len() && lowered((#[trigger] m.arch->0@[i])@) == lowered(
                host.arch@,
            ))),
{
}

/// An executable is looked for beside the manifest and, level by level, among what was built for
/// debugging and for release, with and without the ending of a program.
pub proof fn executables_are_looked_for_here(exe: Seq<char>, up: int)
    requires
        up > 0,
    ensures
        places(exe, 0).len() == 2,
        places(exe, 0)[0] == (0int, None::<Seq<char>>, exe),
        places(exe, 0)[1] == (0int, None::<Seq<char>>, exe + ".exe"@),
        places(exe, up).len() == places(exe, up - 1).len() + 4,
        ({
            let n = places(exe, up - 1).len() as int;
            &&& places(exe, up)[n] == (up, Some("debug"@), exe)
            &&& places(exe, up)[n + 1] == (up, Some("debug"@), exe + ".exe"@)
            &&& places(exe, up)[n + 2] == (up, Some("release"@), exe)
            &&& places(exe, up)[n + 3] == (up, Some("release"@), exe + ".exe"@)
        }),
        forall|i: int|
            0 <= i < places(exe, up - 1).len() ==> #[trigger] places(exe, up)[i] == places(
                exe,
                up - 1,
            )[i],
{
}

/// A manifest is taken exactly where its version has three numbers and none before it has its id.
pub proof fn manifests_are_taken_once(found: Seq<FoundManifest>, n: int, k: int)
    requires
        0 <= n <= found.len(),
    ensures
        taken(found, n).contains(k) <==> 0 <= k < n && semver_like(found[k].manifest.version@)
            && forall|j: int|
            0 <= j < k ==> (#[trigger] found[j]).manifest.id@ != found[k].manifest.id@,
    decreases n,
{
    if n > 0 {
        manifests_are_taken_once(found, n - 1, k);
        let a = taken(found, n - 1);
        let b = taken(found, n);
        if a.contains(k) {
            let i = choose|i: int| 0 <= i < a.len() && a[i] == k;
            assert(b[i] == k);
        }
        if b.contains(k) {
            let i = choose|i: int| 0 <= i < b.len() && b[i] == k;
            if i < a.len() {
                assert(a[i] == k);
            }
        }
        if k == n - 1 && is_taken(found, n - 1) {
            assert(b[a.len() as int] == k);
        }
    }
}

/// What is known of a driver that was found: its manifest and where it lies, and whether its
/// platform and the major number of its protocol fit.
pub proof fn drivers_are_known_as_they_were_found(
    d: DiscoveredDriver,
    f: FoundManifest,
    host: Host,
)
    requires
        is_made_of(d, f, host),
    ensures
        d.manifest == f.manifest,
        d.manifest_dir == f.dir,
        d.executable_path == f.executable_path,
        d.platform_ok <==> platform_fault(f.manifest, host) is None,
        d.protocol_ok <==> f.manifest.protocol_major == 1,
{
}

/// Three numbers with points between them are a version.
pub proof fn three_numbers_are_a_version(a: nat, b: nat, c: nat)
    ensures
        semver_like(decimal(a) + seq!['.'] + decimal(b) + seq!['.'] + decimal(c)),
{
    decimals_mean_their_number(a);
    decimals_mean_their_number(b);
    decimals_mean_their_number(c);
    let x = decimal(a);
    let y = decimal(b);
    let z = decimal(c);
    let v = x + seq!['.'] + y + seq!['.'] + z;
    let p = x.len() as int;
    let q = (x.len() + 1 + y.len()) as int;
    assert forall|i: int| 0 <= i < v.len() && i != p && i != q implies is_digit(
        #[trigger] v[i],
    ) by {
        if i < p {
            assert(v[i] == x[i]);
        } else if i < q {
            assert(v[i] == y[i - p - 1]);
        } else {
            assert(v[i] == z[i - q - 1]);
        }
    }
    assert(splits_in_three(v, p, q));
}

/// A version has two points, neither at an end nor side by side, and digits everywhere else.
pub proof fn versions_have_two_points(v: Seq<char>)
    requires
        semver_like(v),
    ensures
        exists|a: int, b: int|
            0 < a && a + 1 < b && b + 1 < v.len() && #[trigger] v[a] == '.' && #[trigger] v[b] == '.'
                && forall|i: int|
                0 <= i < v.len() && i != a && i != b ==> '0' <= #[trigger] v[i] <= '9',
{
    let (a, b) = choose|a: int, b: int| #[trigger] splits_in_three(v, a, b);
    assert(v[a] == '.' && v[b] == '.');
    assert forall|i: int| 0 <= i < v.len() && i != a && i != b implies '0' <= #[trigger] v[i]
        <= '9' by {
        assert(is_digit(v[i]));
    }
}

} // verus!
