//! Finding the Blender executable among the places it may be in.
//!
//! In order: the `AEC_BLENDER_BIN` override, the `BLENDER_BIN` variable, the
//! platform's usual install paths, the directories of `PATH`. A relative path counts
//! from the current directory, and what is found has an absolute path.
use vstd::prelude::*;

use crate::text;

verus! {

#[derive(Clone, Copy, Debug, PartialEq, Eq, Structural)]
pub enum Platform {
    MacOs,
    Windows,
    Linux,
    Other,
}

/// What discovery needs to know of the machine.
#[derive(Debug)]
pub struct Host {
    pub platform: Platform,
    /// The user's home directory.
    pub home: Option<String>,
    /// The directory that relative paths count from.
    pub current_dir: Option<String>,
}

/// Where a path came from.
#[derive(Clone, Copy, Debug, PartialEq, Eq, Structural)]
pub enum DiscoverySource {
    EnvAecBlenderBin,
    EnvBlenderBin,
    KnownInstallPath,
    Path,
}

/// An executable that was found.
#[derive(Debug, PartialEq)]
pub struct BlenderDiscovery {
    /// Absolute path to the executable.
    pub path: String,
    /// Where the path came from.
    pub source: DiscoverySource,
}

/// A place to look: its path and where the path came from.
pub struct Place {
    pub path: Seq<char>,
    pub source: DiscoverySource,
}

impl View for BlenderDiscovery {
    type V = Place;

    open spec fn view(&self) -> Place {
        Place { path: self.path@, source: self.source }
    }
}

/// The executable's file name.
pub open spec fn exe_name(platform: Platform) -> Seq<char> {
    if platform == Platform::Windows {
        "blender.exe"@
    } else {
        "blender"@
    }
}

/// The character that parts the directories of `PATH`.
pub open spec fn separator(platform: Platform) -> char {
    if platform == Platform::Windows {
        ';'
    } else {
        ':'
    }
}

/// Whether a path needs a separator before something is appended to it: not
/// where it is empty, ends in one, or is a bare Windows drive.
pub open spec fn wants_separator(platform: Platform, dir: Seq<char>) -> bool {
    if dir.len() == 0 {
        false
    } else if platform == Platform::Windows {
        dir.last() != '/' && dir.last() != '\\' && !bare_drive(dir)
    } else {
        dir.last() != '/'
    }
}

/// Whether a path is a letter and a colon.
pub open spec fn bare_drive(dir: Seq<char>) -> bool {
    dir.len() == 2 && dir[1] == ':' && (('a' <= dir[0] && dir[0] <= 'z') || ('A' <= dir[0]
        && dir[0] <= 'Z'))
}

/// A directory with a relative path appended.
pub open spec fn joined(platform: Platform, dir: Seq<char>, name: Seq<char>) -> Seq<char> {
    if wants_separator(platform, dir) {
        dir + seq![
            if platform == Platform::Windows {
                '\\'
            } else {
                '/'
            },
        ] + name
    } else {
        dir + name
    }
}

/// Whether a character is a letter of the English alphabet.
pub open spec fn letter(c: char) -> bool {
    ('a' <= c && c <= 'z') || ('A' <= c && c <= 'Z')
}

/// Whether a character parts the components of a path.
pub open spec fn slash(platform: Platform, c: char) -> bool {
    c == '/' || (platform == Platform::Windows && c == '\\')
}

/// Whether a path names a share: two separators, a server, a separator and a share.
pub open spec fn names_share(path: Seq<char>, at: int) -> bool {
    &&& 3 <= at < path.len() - 1
    &&& slash(Platform::Windows, path[0])
    &&& slash(Platform::Windows, path[1])
    &&& forall|k: int| 2 <= k < at ==> !slash(Platform::Windows, #[trigger] path[k])
    &&& slash(Platform::Windows, path[at])
    &&& !slash(Platform::Windows, path[at + 1])
}

/// Whether a Windows path starts with a drive and a separator.
pub open spec fn starts_at_drive(path: Seq<char>) -> bool {
    path.len() >= 3 && letter(path[0]) && path[1] == ':' && slash(Platform::Windows, path[2])
}

/// Whether a path starts at the top of a drive without naming it, as Windows has them.
pub open spec fn lacks_drive(platform: Platform, path: Seq<char>) -> bool {
    &&& platform == Platform::Windows
    &&& path.len() > 0
    &&& slash(platform, path[0])
    &&& path.len() >= 2 ==> !slash(platform, path[1])
}

/// Whether a path is absolute. On Windows it starts with a drive and a separator, or
/// names a share; elsewhere it starts with a slash.
pub open spec fn is_absolute(platform: Platform, path: Seq<char>) -> bool {
    if platform == Platform::Windows {
        ||| starts_at_drive(path)
        ||| exists|at: int| #[trigger] names_share(path, at)
    } else {
        path.len() > 0 && path[0] == '/'
    }
}

/// Whether a path counts from the current directory: it is not empty and starts neither
/// with a separator nor with a drive.
pub open spec fn is_relative(platform: Platform, path: Seq<char>) -> bool {
    &&& path.len() > 0
    &&& !slash(platform, path[0])
    &&& !(platform == Platform::Windows && path.len() >= 2 && path[1] == ':')
}

/// The absolute path that a path stands for, where there is one. A relative path counts
/// from the current directory, and one that lacks a drive is on the drive of it.
pub open spec fn resolved(host: Host, path: Seq<char>) -> Option<Seq<char>> {
    if is_absolute(host.platform, path) {
        Some(path)
    } else {
        match host.current_dir {
            Some(dir) => if is_absolute(host.platform, dir@) && is_relative(host.platform, path) {
                Some(joined(host.platform, dir@, path))
            } else if lacks_drive(host.platform, path) && starts_at_drive(dir@) {
                Some(dir@.take(2) + path)
            } else {
                None
            },
            None => None,
        }
    }
}

/// The places that have an absolute path, under that path.
pub open spec fn reachable(host: Host, named: Seq<Place>) -> Seq<Place>
    decreases named.len(),
{
    if named.len() == 0 {
        Seq::empty()
    } else {
        let before = reachable(host, named.drop_last());
        match resolved(host, named.last().path) {
            Some(path) => before.push(Place { path, source: named.last().source }),
            None => before,
        }
    }
}

/// The usual install paths of a platform.
pub open spec fn known_paths(platform: Platform, home: Option<Seq<char>>) -> Seq<Seq<char>> {
    match platform {
        Platform::MacOs => seq!["/Applications/Blender.app/Contents/MacOS/Blender"@],
        Platform::Windows => seq![
            "C:\\Program Files\\Blender Foundation\\Blender 4.1\\blender.exe"@,
            "C:\\Program Files\\Blender Foundation\\Blender 4.2\\blender.exe"@,
        ],
        Platform::Linux => {
            let fixed = seq![
                "/usr/bin/blender"@,
                "/usr/local/bin/blender"@,
                "/snap/bin/blender"@,
                "/var/lib/flatpak/exports/bin/org.blender.Blender"@,
            ];
            match home {
                Some(h) => fixed.push(joined(platform, h, ".local/bin/blender"@)),
                None => fixed,
            }
        },
        Platform::Other => Seq::empty(),
    }
}

/// Length of the stretch before the first `sep`, or the whole length.
pub open spec fn until(s: Seq<char>, sep: char) -> int
    decreases s.len(),
{
    if s.len() == 0 || s[0] == sep {
        0
    } else {
        1 + until(s.drop_first(), sep)
    }
}

/// The directories that a `PATH` text lists, empty ones left out.
pub open spec fn listed_dirs(s: Seq<char>, sep: char) -> Seq<Seq<char>>
    decreases s.len(),
{
    if s.len() == 0 {
        Seq::empty()
    } else {
        let n = until(s, sep);
        if n == 0 {
            listed_dirs(s.drop_first(), sep)
        } else if 0 < n <= s.len() {
            seq![s.take(n)] + listed_dirs(s.skip(n), sep)
        } else {
            Seq::empty()
        }
    }
}

/// A list of paths of one source as places.
pub open spec fn places(paths: Seq<Seq<char>>, source: DiscoverySource) -> Seq<Place> {
    paths.map_values(|p: Seq<char>| Place { path: p, source })
}

/// A path that may be absent as a list of places.
pub open spec fn place_if_any(p: Option<&str>, source: DiscoverySource) -> Seq<Place> {
    match p {
        Some(t) => seq![Place { path: t@, source }],
        None => Seq::empty(),
    }
}

/// The executables that the directories of `PATH` would hold.
pub open spec fn path_candidates(platform: Platform, path_var: Option<&str>) -> Seq<Seq<char>> {
    match path_var {
        Some(raw) => listed_dirs(raw@, separator(platform)).map_values(
            |dir: Seq<char>| joined(platform, dir, exe_name(platform)),
        ),
        None => Seq::empty(),
    }
}

/// Every place that the environment and the platform name, in order.
pub open spec fn named_places(
    host: Host,
    aec_env: Option<&str>,
    blender_env: Option<&str>,
    path_var: Option<&str>,
) -> Seq<Place> {
    place_if_any(aec_env, DiscoverySource::EnvAecBlenderBin) + place_if_any(
        blender_env,
        DiscoverySource::EnvBlenderBin,
    ) + places(
        known_paths(host.platform, text::text_if_any(host.home)),
        DiscoverySource::KnownInstallPath,
    ) + places(path_candidates(host.platform, path_var), DiscoverySource::Path)
}

/// Every place to look, in order.
pub open spec fn search_order(
    host: Host,
    aec_env: Option<&str>,
    blender_env: Option<&str>,
    path_var: Option<&str>,
) -> Seq<Place> {
    reachable(host, named_places(host, aec_env, blender_env, path_var))
}

/// Whether the file check may answer `yes` for a path.
pub open spec fn answers<F: Fn(&str) -> bool>(check: F, path: Seq<char>, yes: bool) -> bool {
    exists|t: &str| t@ == path && #[trigger] check.ensures((t,), yes)
}

fn executable_name(platform: Platform) -> (r: &'static str)
    ensures
        r@ == exe_name(platform),
{
    if platform == Platform::Windows {
        "blender.exe"
    } else {
        "blender"
    }
}

fn path_separator(platform: Platform) -> (r: char)
    ensures
        r == separator(platform),
{
    if platform == Platform::Windows {
        ';'
    } else {
        ':'
    }
}

fn join_path(platform: Platform, dir: &str, name: &str) -> (r: String)
    ensures
        r@ == joined(platform, dir@, name@),
{
    let chars: Vec<char> = text::chars_of(dir);
    let mut out: String = dir.to_owned();
    let n: usize = chars.len();
    let wants: bool = if n == 0 {
        false
    } else if platform == Platform::Windows {
        let drive: bool = n == 2 && chars[1] == ':' && (('a' <= chars[0] && chars[0] <= 'z') || (
        'A' <= chars[0] && chars[0] <= 'Z'));
        chars[n - 1] != '/' && chars[n - 1] != '\\' && !drive
    } else {
        chars[n - 1] != '/'
    };
    if wants {
        if platform == Platform::Windows {
            out.push('\\');
            proof {
                assert(out@ =~= dir@ + seq!['\\']);
            }
        } else {
            out.push('/');
            proof {
                assert(out@ =~= dir@ + seq!['/']);
            }
        }
    }
    out.append(name);
    out
}

/// The usual install paths of the machine.
fn known_install_paths(host: &Host) -> (r: Vec<String>)
    ensures
        text::texts(r@) == known_paths(host.platform, text::text_if_any(host.home)),
{
    let mut out: Vec<String> = Vec::new();
    match host.platform {
        Platform::MacOs => {
            out.push("/Applications/Blender.app/Contents/MacOS/Blender".to_owned());
        },
        Platform::Windows => {
            out.push("C:\\Program Files\\Blender Foundation\\Blender 4.1\\blender.exe".to_owned());
            out.push("C:\\Program Files\\Blender Foundation\\Blender 4.2\\blender.exe".to_owned());
        },
        Platform::Linux => {
            out.push("/usr/bin/blender".to_owned());
            out.push("/usr/local/bin/blender".to_owned());
            out.push("/snap/bin/blender".to_owned());
            out.push("/var/lib/flatpak/exports/bin/org.blender.Blender".to_owned());
            if let Some(home) = &host.home {
                out.push(join_path(host.platform, home.as_str(), ".local/bin/blender"));
            }
        },
        Platform::Other => {},
    }
    proof {
        assert(text::texts(out@) =~= known_paths(host.platform, text::text_if_any(host.home)));
    }
    out
}

proof fn until_skips(s: Seq<char>, sep: char, k: int)
    requires
        0 <= k <= s.len(),
        forall|i: int| 0 <= i < k ==> s[i] != sep,
    ensures
        until(s, sep) == k + until(s.skip(k), sep),
    decreases k,
{
    if k == 0 {
        assert(s.skip(0) =~= s);
    } else {
        until_skips(s.drop_first(), sep, k - 1);
        assert(s.drop_first().skip(k - 1) =~= s.skip(k));
    }
}

/// The directories that a `PATH` text lists.
fn split_dirs(raw: &str, sep: char) -> (r: Vec<String>)
    ensures
        text::texts(r@) == listed_dirs(raw@, sep),
{
    let chars: Vec<char> = text::chars_of(raw);
    let mut out: Vec<String> = Vec::new();
    let mut i: usize = 0;
    proof {
        assert(chars@.skip(0) =~= raw@);
        assert(text::texts(out@) + listed_dirs(raw@, sep) =~= listed_dirs(raw@, sep));
    }
    while i < chars.len()
        invariant
            i <= chars.len(),
            text::texts(out@) + listed_dirs(chars@.skip(i as int), sep) == listed_dirs(raw@, sep),
        decreases chars.len() - i,
    {
        let ghost s = chars@.skip(i as int);
        let mut j: usize = i;
        while j < chars.len() && chars[j] != sep
            invariant
                i <= j <= chars.len(),
                s == chars@.skip(i as int),
                forall|k: int| 0 <= k < j - i ==> s[k] != sep,
            decreases chars.len() - j,
        {
            j = j + 1;
        }
        proof {
            until_skips(s, sep, j - i);
            if j < chars.len() {
                assert(s.skip(j - i)[0] == chars@[j as int]);
            }
            assert(until(s, sep) == j - i);
        }
        if j == i {
            proof {
                assert(s.drop_first() =~= chars@.skip(i + 1));
            }
            i = i + 1;
        } else {
            let dir: String = text::string_from(&chars, i, j);
            let ghost before = text::texts(out@);
            out.push(dir);
            proof {
                assert(s.take(j - i) =~= dir@);
                assert(s.skip(j - i) =~= chars@.skip(j as int));
                assert(text::texts(out@) =~= before.push(dir@));
                assert(before.push(dir@) + listed_dirs(chars@.skip(j as int), sep) =~= before + (
                seq![dir@] + listed_dirs(chars@.skip(j as int), sep)));
            }
            i = j;
        }
    }
    proof {
        assert(chars@.skip(i as int) =~= Seq::empty());
        assert(text::texts(out@) + listed_dirs(chars@.skip(i as int), sep) =~= text::texts(out@));
    }
    out
}

/// What each discovery of a list holds.
pub open spec fn discovery_views(list: Seq<BlenderDiscovery>) -> Seq<Place> {
    list.map_values(|d: BlenderDiscovery| d@)
}

/// Appends paths of one source to the places to look.
fn append_places(list: &mut Vec<BlenderDiscovery>, paths: Vec<String>, source: DiscoverySource)
    ensures
        discovery_views(final(list)@) == discovery_views(old(list)@) + places(
            text::texts(paths@),
            source,
        ),
{
    let ghost start = discovery_views(list@);
    let ghost more = places(text::texts(paths@), source);
    let mut i: usize = 0;
    proof {
        assert(start + more.take(0) =~= start);
    }
    while i < paths.len()
        invariant
            i <= paths.len(),
            more == places(text::texts(paths@), source),
            discovery_views(list@) == start + more.take(i as int),
        decreases paths.len() - i,
    {
        let ghost before = list@;
        list.push(BlenderDiscovery { path: paths[i].clone(), source });
        proof {
            assert(discovery_views(list@) =~= discovery_views(before).push(list@.last()@));
            assert(more[i as int] == list@.last()@);
            assert(start + more.take(i + 1) =~= (start + more.take(i as int)).push(
                more[i as int],
            ));
        }
        i = i + 1;
    }
    proof {
        assert(more.take(i as int) =~= more);
    }
}

fn is_slash(platform: Platform, c: char) -> (r: bool)
    ensures
        r == slash(platform, c),
{
    c == '/' || (platform == Platform::Windows && c == '\\')
}

fn share_named(chars: &Vec<char>) -> (r: bool)
    ensures
        r == exists|at: int| #[trigger] names_share(chars@, at),
{
    let n: usize = chars.len();
    if n < 5 || !is_slash(Platform::Windows, chars[0]) || !is_slash(Platform::Windows, chars[1]) {
        return false;
    }
    let mut at: usize = 2;
    while at < n && !is_slash(Platform::Windows, chars[at])
        invariant
            2 <= at <= n,
            n == chars@.len(),
            forall|k: int| 2 <= k < at ==> !slash(Platform::Windows, #[trigger] chars@[k]),
        decreases n - at,
    {
        at = at + 1;
    }
    if at >= 3 && at < n - 1 && !is_slash(Platform::Windows, chars[at + 1]) {
        assert(names_share(chars@, at as int));
        true
    } else {
        proof {
            assert forall|other: int| !#[trigger] names_share(chars@, other) by {
                if names_share(chars@, other) {
                    assert(slash(Platform::Windows, chars@[other]));
                    assert(at <= other);
                    if at < other {
                        assert(!slash(Platform::Windows, chars@[at as int]));
                    }
                }
            }
        }
        false
    }
}

fn drive_named(chars: &Vec<char>) -> (r: bool)
    ensures
        r == starts_at_drive(chars@),
{
    chars.len() >= 3 && (('a' <= chars[0] && chars[0] <= 'z') || ('A' <= chars[0] && chars[0]
        <= 'Z')) && chars[1] == ':' && is_slash(Platform::Windows, chars[2])
}

fn without_drive(platform: Platform, path: &str) -> (r: bool)
    ensures
        r == lacks_drive(platform, path@),
{
    let chars: Vec<char> = text::chars_of(path);
    platform == Platform::Windows && chars.len() > 0 && is_slash(platform, chars[0]) && !(
    chars.len() >= 2 && is_slash(platform, chars[1]))
}

fn absolute(platform: Platform, path: &str) -> (r: bool)
    ensures
        r == is_absolute(platform, path@),
{
    let chars: Vec<char> = text::chars_of(path);
    if platform == Platform::Windows {
        drive_named(&chars) || share_named(&chars)
    } else {
        chars.len() > 0 && chars[0] == '/'
    }
}

fn relative(platform: Platform, path: &str) -> (r: bool)
    ensures
        r == is_relative(platform, path@),
{
    let chars: Vec<char> = text::chars_of(path);
    chars.len() > 0 && !is_slash(platform, chars[0]) && !(platform == Platform::Windows
        && chars.len() >= 2 && chars[1] == ':')
}

/// The absolute path that a path stands for.
fn resolve(host: &Host, path: &String) -> (r: Option<String>)
    ensures
        text::text_if_any(r) == resolved(*host, path@),
{
    if absolute(host.platform, path.as_str()) {
        Some(path.clone())
    } else {
        match &host.current_dir {
            Some(dir) => if absolute(host.platform, dir.as_str()) && relative(
                host.platform,
                path.as_str(),
            ) {
                Some(join_path(host.platform, dir.as_str(), path.as_str()))
            } else {
                let place: Vec<char> = text::chars_of(dir.as_str());
                if without_drive(host.platform, path.as_str()) && drive_named(&place) {
                    let mut full: String = text::string_from(&place, 0, 2);
                    full.append(path.as_str());
                    proof {
                        assert(place@.subrange(0, 2) =~= dir@.take(2));
                    }
                    Some(full)
                } else {
                    None
                }
            },
            None => None,
        }
    }
}

/// The places of a list that have an absolute path, under that path.
fn reachable_places(host: &Host, named: &Vec<BlenderDiscovery>) -> (r: Vec<BlenderDiscovery>)
    ensures
        discovery_views(r@) == reachable(*host, discovery_views(named@)),
{
    let ghost all = discovery_views(named@);
    let mut out: Vec<BlenderDiscovery> = Vec::new();
    assert(discovery_views(out@) =~= reachable(*host, all.take(0)));
    let mut i: usize = 0;
    while i < named.len()
        invariant
            i <= named@.len(),
            all == discovery_views(named@),
            discovery_views(out@) == reachable(*host, all.take(i as int)),
        decreases named@.len() - i,
    {
        assert(all.take(i + 1).drop_last() =~= all.take(i as int));
        assert(all.take(i + 1).last() == named@[i as int]@);
        if let Some(path) = resolve(host, &named[i].path) {
            let ghost before = out@;
            out.push(BlenderDiscovery { path, source: named[i].source });
            assert(discovery_views(out@) =~= discovery_views(before).push(out@.last()@));
        }
        i = i + 1;
    }
    assert(all.take(i as int) =~= all);
    out
}

/// Every place that the environment and the platform name, in order.
fn candidates(
    host: &Host,
    aec_env: Option<&str>,
    blender_env: Option<&str>,
    path_var: Option<&str>,
) -> (r: Vec<BlenderDiscovery>)
    ensures
        discovery_views(r@) == named_places(*host, aec_env, blender_env, path_var),
{
    let mut list: Vec<BlenderDiscovery> = Vec::new();
    if let Some(p) = aec_env {
        list.push(
            BlenderDiscovery { path: p.to_owned(), source: DiscoverySource::EnvAecBlenderBin },
        );
    }
    proof {
        assert(discovery_views(list@) =~= place_if_any(
            aec_env,
            DiscoverySource::EnvAecBlenderBin,
        ));
    }
    let ghost first = discovery_views(list@);
    let ghost head = list@;
    if let Some(p) = blender_env {
        list.push(BlenderDiscovery { path: p.to_owned(), source: DiscoverySource::EnvBlenderBin });
    }
    proof {
        assert(discovery_views(list@) =~= first + place_if_any(
            blender_env,
            DiscoverySource::EnvBlenderBin,
        ));
    }
    append_places(&mut list, known_install_paths(host), DiscoverySource::KnownInstallPath);
    let mut found: Vec<String> = Vec::new();
    if let Some(raw) = path_var {
        let dirs: Vec<String> = split_dirs(raw, path_separator(host.platform));
        let mut i: usize = 0;
        while i < dirs.len()
            invariant
                i <= dirs.len(),
                text::texts(dirs@) == listed_dirs(raw@, separator(host.platform)),
                found@.len() == i,
                forall|k: int|
                    0 <= k < i ==> (#[trigger] found@[k])@ == joined(
                        host.platform,
                        text::texts(dirs@)[k],
                        exe_name(host.platform),
                    ),
            decreases dirs.len() - i,
        {
            found.push(
                join_path(host.platform, dirs[i].as_str(), executable_name(host.platform)),
            );
            i = i + 1;
        }
        proof {
            assert(text::texts(found@) =~= path_candidates(host.platform, path_var));
        }
    }
    proof {
        assert(text::texts(found@) =~= path_candidates(host.platform, path_var));
    }
    append_places(&mut list, found, DiscoverySource::Path);
    list
}

/// The first place, in order, that the file check accepts. Its path is absolute.
pub fn discover_blender_with<F: Fn(&str) -> bool>(
    host: &Host,
    aec_env: Option<&str>,
    blender_env: Option<&str>,
    path_var: Option<&str>,
    existence_check: F,
) -> (r: Option<BlenderDiscovery>)
    requires
        forall|p: &str| #[trigger] existence_check.requires((p,)),
    ensures
        r matches Some(d) ==> is_absolute(host.platform, d.path@) && answers(
            existence_check,
            d.path@,
            true,
        ),
        ({
            let order = search_order(*host, aec_env, blender_env, path_var);
            match r {
                Some(d) => exists|k: int|
                    0 <= k < order.len() && #[trigger] order[k] == d@ && answers(
                        existence_check,
                        order[k].path,
                        true,
                    ) && forall|j: int|
                        0 <= j < k ==> answers(
                            existence_check,
                            #[trigger] order[j].path,
                            false,
                        ),
                None => forall|j: int|
                    0 <= j < order.len() ==> answers(
                        existence_check,
                        #[trigger] order[j].path,
                        false,
                    ),
            }
        }),
{
    let named: Vec<BlenderDiscovery> = candidates(host, aec_env, blender_env, path_var);
    let list: Vec<BlenderDiscovery> = reachable_places(host, &named);
    let ghost order = search_order(*host, aec_env, blender_env, path_var);
    let mut i: usize = 0;
    while i < list.len()
        invariant
            i <= list.len(),
            order == search_order(*host, aec_env, blender_env, path_var),
            discovery_views(list@) == order,
            forall|p: &str| #[trigger] existence_check.requires((p,)),
            forall|j: int|
                0 <= j < i ==> answers(existence_check, #[trigger] order[j].path, false),
        decreases list.len() - i,
    {
        let path: &str = list[i].path.as_str();
        assert(order[i as int] == list@[i as int]@);
        let there: bool = existence_check(path);
        assert(answers(existence_check, order[i as int].path, there)) by {
            assert(existence_check.ensures((path,), there));
        }
        if there {
            let d = BlenderDiscovery { path: list[i].path.clone(), source: list[i].source };
            proof {
                assert(order[i as int] == d@);
                places_are_absolute(*host, named_places(*host, aec_env, blender_env, path_var));
            }
            return Some(d);
        }
        i = i + 1;
    }
    None
}

/// Every place to look has an absolute path.
pub proof fn places_are_absolute(host: Host, named: Seq<Place>)
    ensures
        forall|i: int|
            0 <= i < reachable(host, named).len() ==> is_absolute(
                host.platform,
                (#[trigger] reachable(host, named)[i]).path,
            ),
    decreases named.len(),
{
    if named.len() > 0 {
        places_are_absolute(host, named.drop_last());
        resolution_is_absolute(host, named.last().path);
    }
}

/// What a path stands for is absolute, and stands for itself.
pub proof fn resolution_is_absolute(host: Host, path: Seq<char>)
    ensures
        resolved(host, path) matches Some(full) ==> is_absolute(host.platform, full) && resolved(
            host,
            full,
        ) == Some(full),
{
    if let Some(full) = resolved(host, path) {
        if !is_absolute(host.platform, path) {
            let dir = host.current_dir->0@;
            if lacks_drive(host.platform, path) {
                assert(full[0] == dir[0] && full[1] == dir[1] && full[2] == path[0]);
                assert(starts_at_drive(full));
            } else {
                assert(full.len() >= dir.len());
                assert(forall|k: int| 0 <= k < dir.len() ==> full[k] == dir[k]);
                if host.platform == Platform::Windows && (exists|at: int| #[trigger]
                    names_share(dir, at)) {
                    let at = choose|at: int| #[trigger] names_share(dir, at);
                    assert forall|k: int| 2 <= k < at implies !slash(
                        Platform::Windows,
                        #[trigger] full[k],
                    ) by {
                        assert(!slash(Platform::Windows, dir[k]));
                    }
                    assert(names_share(full, at));
                }
            }
        }
    }
}

proof fn reachable_parts(host: Host, a: Seq<Place>, b: Seq<Place>)
    ensures
        reachable(host, a + b) == reachable(host, a) + reachable(host, b),
    decreases b.len(),
{
    if b.len() == 0 {
        assert(a + b =~= a);
        assert(reachable(host, a) + reachable(host, b) =~= reachable(host, a));
    } else {
        reachable_parts(host, a, b.drop_last());
        assert((a + b).drop_last() =~= a + b.drop_last());
        assert((a + b).last() == b.last());
        assert(reachable(host, a + b) =~= reachable(host, a) + reachable(host, b));
    }
}

/// An override that stands for an absolute path is the first place to look.
pub proof fn override_comes_first(
    host: Host,
    aec_env: Option<&str>,
    blender_env: Option<&str>,
    path_var: Option<&str>,
)
    requires
        aec_env is Some,
        resolved(host, aec_env->0@) is Some,
    ensures
        ({
            let order = search_order(host, aec_env, blender_env, path_var);
            order.len() > 0 && order[0] == (Place {
                path: resolved(host, aec_env->0@)->0,
                source: DiscoverySource::EnvAecBlenderBin,
            })
        }),
{
    let named = named_places(host, aec_env, blender_env, path_var);
    let first = named.take(1);
    assert(first + named.skip(1) =~= named);
    reachable_parts(host, first, named.skip(1));
    assert(first.drop_last() =~= Seq::empty());
    assert(reachable(host, first.drop_last()) =~= Seq::empty());
    assert(reachable(host, first) =~= seq![
        Place {
            path: resolved(host, aec_env->0@)->0,
            source: DiscoverySource::EnvAecBlenderBin,
        },
    ]);
}

proof fn ranks_stay_in_order(host: Host, named: Seq<Place>)
    requires
        forall|i: int, j: int|
            0 <= i < j < named.len() ==> source_rank((#[trigger] named[i]).source) <= source_rank(
                (#[trigger] named[j]).source,
            ),
    ensures
        forall|i: int|
            0 <= i < reachable(host, named).len() ==> exists|k: int|
                0 <= k < named.len() && (#[trigger] named[k]).source == (#[trigger] reachable(
                    host,
                    named,
                )[i]).source,
        forall|i: int, j: int|
            0 <= i < j < reachable(host, named).len() ==> source_rank(
                (#[trigger] reachable(host, named)[i]).source,
            ) <= source_rank((#[trigger] reachable(host, named)[j]).source),
    decreases named.len(),
{
    if named.len() > 0 {
        let short = named.drop_last();
        let before = reachable(host, short);
        ranks_stay_in_order(host, short);
        let all = reachable(host, named);
        assert forall|i: int| 0 <= i < all.len() implies exists|k: int|
            0 <= k < named.len() && (#[trigger] named[k]).source == (#[trigger] all[i]).source by {
            if i < before.len() {
                let k = choose|k: int|
                    0 <= k < short.len() && (#[trigger] short[k]).source == before[i].source;
                assert(named[k].source == all[i].source);
            } else {
                assert(named[named.len() - 1].source == all[i].source);
            }
        }
        assert forall|i: int, j: int| 0 <= i < j < all.len() implies source_rank(
            (#[trigger] all[i]).source,
        ) <= source_rank((#[trigger] all[j]).source) by {
            if j >= before.len() {
                let k = choose|k: int|
                    0 <= k < short.len() && (#[trigger] short[k]).source == before[i].source;
                assert(named[k].source == all[i].source);
                assert(named[named.len() - 1].source == all[j].source);
            } else {
                assert(before[i] == all[i] && before[j] == all[j]);
            }
        }
    }
}

/// Places of one source come in one stretch, in the order of the sources.
pub proof fn sources_come_in_order(
    host: Host,
    aec_env: Option<&str>,
    blender_env: Option<&str>,
    path_var: Option<&str>,
    i: int,
    j: int,
)
    requires
        0 <= i < j < search_order(host, aec_env, blender_env, path_var).len(),
    ensures
        ({
            let order = search_order(host, aec_env, blender_env, path_var);
            source_rank(order[i].source) <= source_rank(order[j].source)
        }),
{
    ranks_stay_in_order(host, named_places(host, aec_env, blender_env, path_var));
}

/// Place of a source in the search.
pub open spec fn source_rank(s: DiscoverySource) -> int {
    match s {
        DiscoverySource::EnvAecBlenderBin => 0,
        DiscoverySource::EnvBlenderBin => 1,
        DiscoverySource::KnownInstallPath => 2,
        DiscoverySource::Path => 3,
    }
}

/// A joined path starts with the directory and ends with the name. What is between them is
/// at most one separator, and the directory comes to its end at a separator, unless it is
/// empty or a bare drive.
pub proof fn joined_paths_hold_directory_and_name(
    platform: Platform,
    dir: Seq<char>,
    name: Seq<char>,
)
    ensures
        ({
            let path = joined(platform, dir, name);
            let start = path.len() - name.len();
            &&& dir.len() <= start <= dir.len() + 1
            &&& path.take(dir.len() as int) == dir
            &&& path.skip(start) == name
            &&& start == dir.len() + 1 ==> slash(platform, path[dir.len() as int]) && !slash(
                platform,
                dir.last(),
            )
            &&& start == dir.len() ==> dir.len() == 0 || slash(platform, dir.last()) || (platform
                == Platform::Windows && dir.len() == 2 && dir[1] == ':')
        }),
{
    let path = joined(platform, dir, name);
    let start = path.len() - name.len();
    assert(path.take(dir.len() as int) =~= dir);
    assert(path.skip(start) =~= name);
}

/// A text without a separator that is not empty lists one directory.
pub proof fn texts_without_a_separator_list_one_directory(s: Seq<char>, sep: char)
    requires
        s.len() > 0,
        forall|i: int| 0 <= i < s.len() ==> #[trigger] s[i] != sep,
    ensures
        listed_dirs(s, sep) == seq![s],
{
    separator_ends(s, sep);
    let n = until(s, sep);
    assert(n == s.len());
    assert(s.take(n) =~= s);
    assert(s.skip(n) =~= Seq::empty());
    assert(listed_dirs(s.skip(n), sep) =~= Seq::empty());
    assert(listed_dirs(s, sep) =~= seq![s]);
}

/// A separator parts the directories before it from those behind it.
pub proof fn separators_part_directories(before: Seq<char>, sep: char, behind: Seq<char>)
    ensures
        listed_dirs(before.push(sep) + behind, sep) == listed_dirs(before, sep) + listed_dirs(
            behind,
            sep,
        ),
    decreases before.len(),
{
    let s = before.push(sep) + behind;
    if before.len() == 0 {
        assert(s[0] == sep);
        assert(s.drop_first() =~= behind);
        assert(listed_dirs(before, sep) + listed_dirs(behind, sep) =~= listed_dirs(behind, sep));
    } else {
        separator_ends(before, sep);
        separator_ends(s, sep);
        let n = until(before, sep);
        assert(until(s, sep) == n) by {
            let m = until(s, sep);
            assert(s[n] == sep);
            if m < n {
                assert(s[m] == before[m]);
            }
        }
        if n == 0 {
            assert(s.drop_first() =~= before.drop_first().push(sep) + behind);
            separators_part_directories(before.drop_first(), sep, behind);
        } else {
            assert(s.take(n) =~= before.take(n));
            assert(s.skip(n) =~= before.skip(n).push(sep) + behind);
            separators_part_directories(before.skip(n), sep, behind);
            let head = seq![before.take(n)];
            assert(head + (listed_dirs(before.skip(n), sep) + listed_dirs(behind, sep)) =~= head
                + listed_dirs(before.skip(n), sep) + listed_dirs(behind, sep));
        }
    }
}

proof fn separator_ends(s: Seq<char>, sep: char)
    ensures
        0 <= until(s, sep) <= s.len(),
        forall|i: int| 0 <= i < until(s, sep) ==> #[trigger] s[i] != sep,
        until(s, sep) < s.len() ==> s[until(s, sep)] == sep,
    decreases s.len(),
{
    if s.len() > 0 && s[0] != sep {
        let rest = s.drop_first();
        separator_ends(rest, sep);
        assert forall|i: int| 0 <= i < until(s, sep) implies #[trigger] s[i] != sep by {
            if i > 0 {
                assert(rest[i - 1] == s[i]);
            }
        }
    }
}

/// Every directory of `PATH` is looked into for the executable, under its name on the
/// platform and in the order of the directories.
pub proof fn every_directory_is_looked_into(platform: Platform, path_var: &str, i: int)
    requires
        0 <= i < listed_dirs(path_var@, separator(platform)).len(),
    ensures
        path_candidates(platform, Some(path_var)).len() == listed_dirs(
            path_var@,
            separator(platform),
        ).len(),
        ({
            let path = path_candidates(platform, Some(path_var))[i];
            let dir = listed_dirs(path_var@, separator(platform))[i];
            &&& path.take(dir.len() as int) == dir
            &&& platform == Platform::Windows ==> path.skip(path.len() - 11) == "blender.exe"@
            &&& platform != Platform::Windows ==> path.skip(path.len() - 7) == "blender"@
        }),
{
    reveal_strlit("blender.exe");
    reveal_strlit("blender");
    let dir = listed_dirs(path_var@, separator(platform))[i];
    joined_paths_hold_directory_and_name(platform, dir, exe_name(platform));
}

/// Each place that stands for an absolute path is looked at once, under that path, in
/// the order in which the places are named; the others are passed over.
pub proof fn reachable_places_keep_their_order(host: Host, a: Seq<Place>, p: Place, b: Seq<Place>)
    ensures
        reachable(host, a.push(p) + b) == match resolved(host, p.path) {
            Some(path) => reachable(host, a).push(Place { path, source: p.source }) + reachable(
                host,
                b,
            ),
            None => reachable(host, a) + reachable(host, b),
        },
        reachable(host, Seq::empty()).len() == 0,
{
    reachable_parts(host, a.push(p), b);
    assert(a.push(p).drop_last() =~= a);
}

/// An absolute path stands for itself wherever it is looked at from, and a relative one
/// for itself behind the current directory.
pub proof fn relative_paths_count_from_the_current_directory(host: Host, path: Seq<char>)
    ensures
        is_absolute(host.platform, path) ==> resolved(host, path) == Some(path),
        !is_absolute(host.platform, path) && host.current_dir is None ==> resolved(host, path)
            is None,
        !is_absolute(host.platform, path) && is_relative(host.platform, path) ==> (resolved(
            host,
            path,
        ) matches Some(full) ==> host.current_dir is Some && full.take(
            host.current_dir->0@.len() as int,
        ) == host.current_dir->0@ && full.skip(full.len() - path.len()) == path),
        host.current_dir is Some && is_absolute(host.platform, host.current_dir->0@) && is_relative(
            host.platform,
            path,
        ) ==> resolved(host, path) is Some,
{
    if let Some(dir) = host.current_dir {
        joined_paths_hold_directory_and_name(host.platform, dir@, path);
    }
}

/// The usual install paths are absolute on their platform, and the one in the home
/// directory of a user is in that directory.
pub proof fn usual_paths_are_absolute(platform: Platform, home: Option<Seq<char>>, i: int)
    requires
        0 <= i < known_paths(platform, home).len(),
        home matches Some(h) ==> is_absolute(platform, h),
    ensures
        is_absolute(platform, known_paths(platform, home)[i]),
        platform == Platform::Linux && home is Some ==> known_paths(platform, home).last().take(
            home->0.len() as int,
        ) == home->0,
        platform == Platform::Linux ==> known_paths(platform, home).len() == if home is Some {
            5nat
        } else {
            4nat
        },
{
    reveal_strlit("/Applications/Blender.app/Contents/MacOS/Blender");
    reveal_strlit("C:\\Program Files\\Blender Foundation\\Blender 4.1\\blender.exe");
    reveal_strlit("C:\\Program Files\\Blender Foundation\\Blender 4.2\\blender.exe");
    reveal_strlit("/usr/bin/blender");
    reveal_strlit("/usr/local/bin/blender");
    reveal_strlit("/snap/bin/blender");
    reveal_strlit("/var/lib/flatpak/exports/bin/org.blender.Blender");
    if platform == Platform::Linux {
        if let Some(h) = home {
            joined_paths_hold_directory_and_name(platform, h, ".local/bin/blender"@);
            assert(joined(platform, h, ".local/bin/blender"@)[0] == h[0]);
        }
    }
    if platform == Platform::Windows {
        assert(starts_at_drive(known_paths(platform, home)[i]));
    }
}

} // verus!
