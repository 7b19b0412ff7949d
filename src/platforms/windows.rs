//! Windows: Start-Menu shortcuts (`.lnk`), read with parselnk, their
//! environment aliases expanded and their targets resolved.
use vstd::prelude::*;
use crate::common::{App, AppView, AppError, SearchPath, Reconciler, apps_view, dedup, opt_view};
use crate::text::{
    chars_of, string_of, slice_of, concat, occurs_at, matches_at, chars_eq, join, join_path,
    parent, parent_of, file_stem, file_stem_of, extension, has_extension,
};

verus! {

/// `s` with every occurrence of `p`, from left to right, replaced by `r`.
pub open spec fn replace_all(s: Seq<char>, p: Seq<char>, r: Seq<char>) -> Seq<char>
    decreases s.len(),
{
    if s.len() == 0 || p.len() == 0 {
        s
    } else if occurs_at(s, 0, p) {
        r + replace_all(s.skip(p.len() as int), p, r)
    } else {
        seq![s[0]] + replace_all(s.drop_first(), p, r)
    }
}

/// `s` with every occurrence of `p` replaced by `r`.
pub fn replace_all_of(s: &[char], p: &[char], r: &[char]) -> (out: Vec<char>)
    requires
        p@.len() > 0,
    ensures
        out@ == replace_all(s@, p@, r@),
{
    let mut out: Vec<char> = Vec::new();
    let mut i: usize = 0;
    assert(s@.skip(0) =~= s@);
    while i < s.len()
        invariant
            p@.len() > 0,
            i <= s@.len(),
            replace_all(s@, p@, r@) == out@ + replace_all(s@.skip(i as int), p@, r@),
        decreases s@.len() - i,
    {
        let ghost rest = s@.skip(i as int);
        if matches_at(s, i, p) {
            assert(rest.subrange(0, p@.len() as int) =~= s@.subrange(i as int, i + p@.len()));
            assert(rest.skip(p@.len() as int) =~= s@.skip(i + p@.len()));
            let ghost before = out@;
            out = concat(&out, r);
            assert(before + (r@ + replace_all(s@.skip(i + p@.len()), p@, r@)) =~= out@
                + replace_all(s@.skip(i + p@.len()), p@, r@));
            i = i + p.len();
        } else {
            proof {
                if occurs_at(rest, 0, p@) {
                    assert(rest.subrange(0, p@.len() as int) =~= s@.subrange(i as int, i + p@.len()));
                }
            }
            assert(rest.drop_first() =~= s@.skip(i + 1));
            assert(rest[0] == s@[i as int]);
            let ghost before = out@;
            out.push(s[i]);
            assert(before + (seq![s@[i as int]] + replace_all(s@.skip(i + 1), p@, r@)) =~= out@
                + replace_all(s@.skip(i + 1), p@, r@));
            i = i + 1;
        }
    }
    assert(s@.skip(i as int) =~= Seq::<char>::empty());
    assert(out@ + Seq::<char>::empty() =~= out@);
    out
}

/// The environment variables that shortcut paths may start with.
pub open spec fn alias_names() -> Seq<Seq<char>> {
    seq![
        "windir"@,
        "SystemRoot"@,
        "ProgramFiles"@,
        "ProgramFiles(x86)"@,
        "ProgramData"@,
        "USERPROFILE"@,
        "APPDATA"@,
        "LOCALAPPDATA"@,
        "PUBLIC"@,
        "SystemDrive"@,
    ]
}

/// The token that writes the variable `name` in a path: `%name%`.
pub open spec fn alias_token(name: Seq<char>) -> Seq<char> {
    seq!['%'] + name + seq!['%']
}

/// The value that `env` gives the variable `name`: its first pair of that
/// name.
pub open spec fn env_value(env: Seq<(String, String)>, name: Seq<char>) -> Option<Seq<char>>
    decreases env.len(),
{
    if env.len() == 0 {
        None
    } else if env[0].0@ == name {
        Some(env[0].1@)
    } else {
        env_value(env.drop_first(), name)
    }
}

/// `path` with its leading alias expanded, trying the recognised variables
/// from the `k`-th on: the first variable whose token starts the path and
/// that `env` sets has every occurrence of its token replaced by its value.
pub open spec fn translate_from(path: Seq<char>, env: Seq<(String, String)>, k: int) -> Seq<char>
    decreases alias_names().len() - k,
{
    if k < 0 || k >= alias_names().len() {
        path
    } else {
        let name = alias_names()[k];
        if occurs_at(path, 0, alias_token(name)) && env_value(env, name) is Some {
            replace_all(path, alias_token(name), env_value(env, name)->0)
        } else {
            translate_from(path, env, k + 1)
        }
    }
}

/// `path` with its leading environment alias (such as `%windir%`)
/// expanded; a path without a recognised, set alias stays as it is.
pub open spec fn translate(path: Seq<char>, env: Seq<(String, String)>) -> Seq<char> {
    translate_from(path, env, 0)
}

/// The value that `env` gives the variable `name`.
fn lookup_env(env: &Vec<(String, String)>, name: &[char]) -> (r: Option<Vec<char>>)
    ensures
        match r {
            Some(v) => env_value(env@, name@) == Some(v@),
            None => env_value(env@, name@) is None,
        },
{
    let mut i: usize = 0;
    assert(env@.skip(0) =~= env@);
    while i < env.len()
        invariant
            i <= env@.len(),
            env_value(env@, name@) == env_value(env@.skip(i as int), name@),
        decreases env@.len() - i,
    {
        assert(env@.skip(i as int)[0] == env@[i as int]);
        assert(env@.skip(i as int).drop_first() =~= env@.skip(i + 1));
        let n = chars_of(env[i].0.as_str());
        if chars_eq(&n, name) {
            return Some(chars_of(env[i].1.as_str()));
        }
        i = i + 1;
    }
    None
}

/// Expands the environment alias that starts `path` against `env`, pairs of
/// variable name and value: `%windir%\system32\mstsc.exe` becomes the
/// Windows folder followed by `\system32\mstsc.exe`.
pub fn translate_path_alias(path: &str, env: &Vec<(String, String)>) -> (r: String)
    ensures
        r@ == translate(path@, env@),
{
    let names: [&str; 10] = [
        "windir",
        "SystemRoot",
        "ProgramFiles",
        "ProgramFiles(x86)",
        "ProgramData",
        "USERPROFILE",
        "APPDATA",
        "LOCALAPPDATA",
        "PUBLIC",
        "SystemDrive",
    ];
    assert(crate::platforms::linux::names_view(names@) =~= alias_names());
    let p = chars_of(path);
    let mut k: usize = 0;
    while k < 10
        invariant
            crate::platforms::linux::names_view(names@) == alias_names(),
            p@ == path@,
            k <= 10,
            translate(path@, env@) == translate_from(path@, env@, k as int),
        decreases 10 - k,
    {
        let name = chars_of(names[k]);
        assert(name@ == alias_names()[k as int]);
        let mut token: Vec<char> = concat(&['%'], &name);
        token.push('%');
        assert(token@ =~= alias_token(name@));
        if matches_at(&p, 0, &token) {
            match lookup_env(env, &name) {
                Some(value) => {
                    let out = replace_all_of(&p, &token, &value);
                    return string_of(&out);
                },
                None => {},
            }
        }
        k = k + 1;
    }
    path.to_string()
}

/// A path without the extended-length prefix `\\?\` that canonical Windows
/// paths may carry.
pub open spec fn strip_prefix(p: Seq<char>) -> Seq<char> {
    if occurs_at(p, 0, seq!['\\', '\\', '?', '\\']) {
        p.skip(4)
    } else {
        p
    }
}

/// `path` without its extended-length prefix `\\?\`.
pub fn strip_extended_prefix(path: &str) -> (r: String)
    ensures
        r@ == strip_prefix(path@),
{
    let p = chars_of(path);
    let mut prefix: Vec<char> = Vec::new();
    prefix.push('\\');
    prefix.push('\\');
    prefix.push('?');
    prefix.push('\\');
    assert(prefix@ =~= seq!['\\', '\\', '?', '\\']);
    if matches_at(&p, 0, &prefix) {
        string_of(&slice_of(&p, 4, p.len()))
    } else {
        path.to_string()
    }
}

/// The string fields of a shortcut that discovery reads.
#[derive(Debug, Clone)]
pub struct LnkFields {
    /// Where the shortcut's icon is.
    pub icon_location: Option<String>,
    /// The target, relative to the shortcut's folder.
    pub relative_path: Option<String>,
    /// The folder the target runs in.
    pub working_dir: Option<String>,
}

impl View for LnkFields {
    type V = (Option<Seq<char>>, Option<Seq<char>>, Option<Seq<char>>);

    open spec fn view(&self) -> (Option<Seq<char>>, Option<Seq<char>>, Option<Seq<char>>) {
        (opt_view(self.icon_location), opt_view(self.relative_path), opt_view(self.working_dir))
    }
}

/// The little-endian 16-bit number at `p`.
pub open spec fn le16(b: Seq<u8>, p: int) -> int {
    b[p] as int + 256 * (b[p + 1] as int)
}

/// The little-endian 32-bit number at `p`.
pub open spec fn le32(b: Seq<u8>, p: int) -> int {
    le16(b, p) + 65536 * le16(b, p + 2)
}

/// Whether the header's link flags (their low byte, at offset 20) hold the
/// bit of value `bit`.
pub open spec fn has_flag(b: Seq<u8>, bit: int) -> bool {
    (b[20] as int / bit) % 2 == 1
}

/// The flag bits of the optional strings, in the order they are stored:
/// name, relative path, working directory, arguments, icon location.
pub open spec fn string_bits() -> Seq<int> {
    seq![4, 8, 16, 32, 64]
}

/// Whether the link-info offsets and size at `q` stay within the bytes.
pub open spec fn link_info_bounded(b: Seq<u8>, q: int) -> bool {
    &&& le32(b, q) <= b.len()
    &&& le32(b, q + 12) <= b.len()
    &&& le32(b, q + 16) <= b.len()
    &&& le32(b, q + 20) <= b.len()
    &&& le32(b, q + 24) <= b.len()
    &&& le32(b, q + 28) <= b.len()
    &&& le32(b, q + 32) <= b.len()
}

/// Where the string data start: after the 76-byte header, the target ID
/// list (a 16-bit size, then the list) and the link info (its own 32-bit
/// size); `None` where a size cannot be read or the link info is out of
/// bounds.
pub open spec fn string_data_at(b: Seq<u8>) -> Option<int> {
    let after_ids = if has_flag(b, 1) {
        if 78 <= b.len() {
            Some(78 + le16(b, 76))
        } else {
            None
        }
    } else {
        Some(76)
    };
    match after_ids {
        Some(q) => if has_flag(b, 2) {
            if q + 36 <= b.len() && link_info_bounded(b, q) {
                Some(q + le32(b, q))
            } else {
                None
            }
        } else {
            Some(q)
        },
        None => None,
    }
}

/// Whether the optional strings from the `k`-th on, starting at `p`, each
/// fit in the bytes: a 16-bit count, then as many characters (two bytes
/// each in a Unicode link, whose counts stay below 32768).
pub open spec fn strings_fit(b: Seq<u8>, p: int, k: int) -> bool
    decreases 5 - k,
{
    if k < 0 || k >= 5 {
        true
    } else if !has_flag(b, string_bits()[k]) {
        strings_fit(b, p, k + 1)
    } else if p < 0 || p + 2 > b.len() {
        false
    } else {
        let n = le16(b, p);
        let w: int = if has_flag(b, 128) {
            2
        } else {
            1
        };
        &&& !(has_flag(b, 128) && n >= 32768)
        &&& p + 2 + n * w <= b.len()
        &&& strings_fit(b, p + 2 + n * w, k + 1)
    }
}

/// Whether an extra-data block header at `i` names a shim, property-store
/// or ID-list block whose size is below its own 8-byte header or beyond
/// the bytes.
pub open spec fn risky_block_at(b: Seq<u8>, i: int) -> bool {
    let sig = le32(b, i + 4);
    &&& sig == 0xa000_0008 || sig == 0xa000_0009 || sig == 0xa000_000c
    &&& le32(b, i) < 8 || le32(b, i) > b.len()
}

/// Whether the bytes frame a shell link that parselnk reads without
/// failing hard: a whole header, sizes that can be read, strings that fit,
/// and no extra-data block anywhere whose size parselnk would underflow or
/// allocate beyond the bytes.
pub open spec fn lnk_well_framed(b: Seq<u8>) -> bool {
    &&& 76 <= b.len() <= u64::MAX / 4
    &&& match string_data_at(b) {
        Some(p) => strings_fit(b, p, 0),
        None => false,
    }
    &&& forall|i: int| 0 <= i && i + 8 <= b.len() ==> !risky_block_at(b, i)
}

fn read_le16(b: &[u8], p: u64) -> (r: u64)
    requires
        p + 2 <= b@.len(),
        b@.len() <= u64::MAX / 4,
    ensures
        r == le16(b@, p as int),
{
    (b[p as usize] as u64) + 256 * (b[(p + 1) as usize] as u64)
}

fn read_le32(b: &[u8], p: u64) -> (r: u64)
    requires
        p + 4 <= b@.len(),
        b@.len() <= u64::MAX / 4,
    ensures
        r == le32(b@, p as int),
{
    read_le16(b, p) + 65536 * read_le16(b, p + 2)
}

/// Whether the optional strings fit, from position `p` on.
fn strings_fit_from(b: &[u8], start: u64) -> (r: bool)
    requires
        b@.len() >= 76,
        start <= u64::MAX / 4,
        b@.len() <= u64::MAX / 4,
    ensures
        r == strings_fit(b@, start as int, 0),
{
    let n = b.len() as u64;
    let flags = b[20] as u64;
    let unicode = (flags / 128) % 2 == 1;
    let bits: [u64; 5] = [4, 8, 16, 32, 64];
    assert(bits@.map_values(|x: u64| x as int) =~= string_bits());
    let mut p: u64 = start;
    let mut k: usize = 0;
    while k < 5
        invariant
            n == b@.len(),
            n >= 76,
            n <= u64::MAX / 4,
            flags == b@[20] as u64,
            unicode == has_flag(b@, 128),
            bits@.map_values(|x: u64| x as int) == string_bits(),
            k <= 5,
            p <= u64::MAX / 4,
            strings_fit(b@, start as int, 0) == strings_fit(b@, p as int, k as int),
        decreases 5 - k,
    {
        let bit = bits[k];
        assert(bit as int == string_bits()[k as int]);
        if (flags / bit) % 2 == 1 {
            if p > n || n - p < 2 {
                return false;
            }
            let count = read_le16(b, p);
            if unicode && count >= 32768 {
                return false;
            }
            let w: u64 = if unicode {
                2
            } else {
                1
            };
            let next = p + 2 + count * w;
            if next > n {
                return false;
            }
            p = next;
        }
        k = k + 1;
    }
    true
}

/// Whether the bytes frame a shell link that parselnk reads without failing
/// hard; see [`lnk_well_framed`].
pub fn lnk_framed(b: &[u8]) -> (r: bool)
    ensures
        r == lnk_well_framed(b@),
{
    let n = b.len() as u64;
    if n < 76 || n > u64::MAX / 4 {
        return false;
    }
    let flags = b[20] as u64;
    let after_ids: u64 = if (flags / 1) % 2 == 1 {
        if n < 78 {
            return false;
        }
        78 + read_le16(b, 76)
    } else {
        76
    };
    let start: u64 = if (flags / 2) % 2 == 1 {
        if after_ids > n || n - after_ids < 36 {
            return false;
        }
        let q = after_ids;
        let size = read_le32(b, q);
        if size > n || read_le32(b, q + 12) > n || read_le32(b, q + 16) > n || read_le32(b, q + 20)
            > n || read_le32(b, q + 24) > n || read_le32(b, q + 28) > n || read_le32(b, q + 32) > n {
            return false;
        }
        q + size
    } else {
        after_ids
    };
    assert(string_data_at(b@) == Some(start as int));
    if !strings_fit_from(b, start) {
        return false;
    }
    let mut i: u64 = 0;
    while i + 8 <= n
        invariant
            n == b@.len(),
            n <= u64::MAX / 4,
            i <= n,
            forall|j: int| 0 <= j < i && j + 8 <= n ==> !risky_block_at(b@, j),
        decreases n - i,
    {
        let sig = read_le32(b, i + 4);
        if sig == 0xa000_0008 || sig == 0xa000_0009 || sig == 0xa000_000c {
            let size = read_le32(b, i);
            if size < 8 || size > n {
                assert(risky_block_at(b@, i as int));
                return false;
            }
        }
        i = i + 1;
    }
    true
}

/// What parselnk reads from the bytes of a shortcut: `None` where it refuses
/// them, else its icon location, relative path and working directory.
pub uninterp spec fn lnk_string_data(bytes: Seq<u8>) -> Option<
    (Option<Seq<char>>, Option<Seq<char>>, Option<Seq<char>>),
>;

/// Relies on parselnk's `Lnk::try_from(&[u8])`, which parses a shell link
/// and keeps its optional string data: icon location, relative path and
/// working directory.
#[verifier::external_body]
fn parse_lnk_bytes(bytes: &[u8]) -> (r: Option<LnkFields>)
    requires
        lnk_well_framed(bytes@),
    ensures
        match r {
            Some(f) => lnk_string_data(bytes@) == Some(f@),
            None => lnk_string_data(bytes@) is None,
        },
{
    let lossy = |p: std::path::PathBuf| p.to_string_lossy().into_owned();
    match parselnk::Lnk::try_from(bytes) {
        Ok(lnk) => Some(LnkFields {
            icon_location: lnk.string_data.icon_location.map(lossy),
            relative_path: lnk.string_data.relative_path.map(lossy),
            working_dir: lnk.string_data.working_dir.map(lossy),
        }),
        Err(_) => None,
    }
}

/// The shortcut's icon, its alias expanded.
pub open spec fn shortcut_icon(
    f: (Option<Seq<char>>, Option<Seq<char>>, Option<Seq<char>>),
    env: Seq<(String, String)>,
) -> Option<Seq<char>> {
    match f.0 {
        Some(i) => Some(translate(i, env)),
        None => None,
    }
}

/// The path to canonicalise for the shortcut at `lnk_path`: its relative
/// path, or, without one, its icon where that is an `.exe`, taken from the
/// shortcut's folder. `None`: the shortcut has no usable target.
pub open spec fn target_candidate(
    lnk_path: Seq<char>,
    f: (Option<Seq<char>>, Option<Seq<char>>, Option<Seq<char>>),
    env: Seq<(String, String)>,
) -> Option<Seq<char>> {
    let rel = match f.1 {
        Some(r) => Some(r),
        None => match shortcut_icon(f, env) {
            Some(i) => if extension(i, true) == Some("exe"@) {
                Some(translate(i, env))
            } else {
                None
            },
            None => None,
        },
    };
    match rel {
        Some(r) => Some(join(parent(lnk_path, true), r, true)),
        None => None,
    }
}

/// The app that the shortcut at `lnk_path` describes, once its target
/// candidate was canonicalised to `canonical` (`None`: it could not be):
/// named after the shortcut file, never after its description.
pub open spec fn shortcut_app(
    lnk_path: Seq<char>,
    f: (Option<Seq<char>>, Option<Seq<char>>, Option<Seq<char>>),
    env: Seq<(String, String)>,
    canonical: Option<Seq<char>>,
) -> Option<AppView> {
    if target_candidate(lnk_path, f, env) is None || canonical is None {
        None
    } else {
        let exe = strip_prefix(canonical->0);
        let work_dir = match f.2 {
            Some(d) => if d.len() > 0 {
                translate(d, env)
            } else {
                parent(exe, true)
            },
            None => parent(exe, true),
        };
        Some(
            AppView {
                name: file_stem(lnk_path, true),
                icon_path: shortcut_icon(f, env),
                app_path_exe: Some(exe),
                app_desktop_path: work_dir,
            },
        )
    }
}

/// The path to canonicalise for the shortcut at `lnk_path` whose fields are
/// `fields`.
pub fn target_of(lnk_path: &str, fields: &LnkFields, env: &Vec<(String, String)>) -> (r: Option<
    String,
>)
    ensures
        opt_view(r) == target_candidate(lnk_path@, fields@, env@),
{
    let rel: Option<String> = match &fields.relative_path {
        Some(r) => Some(r.clone()),
        None => match &fields.icon_location {
            Some(i) => {
                let icon = translate_path_alias(i.as_str(), env);
                let ic = chars_of(icon.as_str());
                let exe = chars_of("exe");
                if has_extension(&ic, &exe, true) {
                    Some(translate_path_alias(icon.as_str(), env))
                } else {
                    None
                }
            },
            None => None,
        },
    };
    match rel {
        Some(r) => {
            let lp = chars_of(lnk_path);
            let dir = parent_of(&lp, true);
            let rc = chars_of(r.as_str());
            Some(string_of(&join_path(&dir, &rc, true)))
        },
        None => None,
    }
}

/// The app that the shortcut at `lnk_path` with `fields` describes, its
/// target canonicalised to `canonical`.
pub fn app_of(
    lnk_path: &str,
    fields: &LnkFields,
    env: &Vec<(String, String)>,
    canonical: &Option<String>,
) -> (r: Option<App>)
    ensures
        match r {
            Some(a) => shortcut_app(lnk_path@, fields@, env@, opt_view(*canonical)) == Some(a@),
            None => shortcut_app(lnk_path@, fields@, env@, opt_view(*canonical)) is None,
        },
{
    if target_of(lnk_path, fields, env).is_none() {
        return None;
    }
    let c = match canonical {
        Some(c) => c,
        None => {
            return None;
        },
    };
    let exe = strip_extended_prefix(c.as_str());
    let ec = chars_of(exe.as_str());
    let work_dir = match &fields.working_dir {
        Some(d) => if !d.as_str().is_empty() {
            translate_path_alias(d.as_str(), env)
        } else {
            string_of(&parent_of(&ec, true))
        },
        None => string_of(&parent_of(&ec, true)),
    };
    let icon_path = match &fields.icon_location {
        Some(i) => Some(translate_path_alias(i.as_str(), env)),
        None => None,
    };
    let lp = chars_of(lnk_path);
    let name = string_of(&file_stem_of(&lp, true));
    Some(App { name, icon_path, app_path_exe: Some(exe), app_desktop_path: work_dir })
}

/// A shortcut with no relative path, whose icon is no `.exe`, gives no app,
/// whatever was canonicalised.
pub proof fn lemma_unresolvable_shortcut_skipped(
    lnk_path: Seq<char>,
    f: (Option<Seq<char>>, Option<Seq<char>>, Option<Seq<char>>),
    env: Seq<(String, String)>,
    canonical: Option<Seq<char>>,
)
    requires
        f.1 is None,
        match shortcut_icon(f, env) {
            Some(i) => extension(i, true) != Some("exe"@),
            None => true,
        },
    ensures
        shortcut_app(lnk_path, f, env, canonical) is None,
{
}

/// The path to canonicalise for the shortcut at `lnk_path` whose bytes are
/// `bytes`; `None` where parselnk refuses them or the shortcut has no usable
/// target.
pub fn shortcut_target(lnk_path: &str, bytes: &[u8], env: &Vec<(String, String)>) -> (r: Option<
    String,
>)
    ensures
        opt_view(r) == (if !lnk_well_framed(bytes@) {
            None
        } else {
            match lnk_string_data(bytes@) {
                Some(f) => target_candidate(lnk_path@, f, env@),
                None => None,
            }
        }),
{
    if !lnk_framed(bytes) {
        return None;
    }
    match parse_lnk_bytes(bytes) {
        Some(fields) => target_of(lnk_path, &fields, env),
        None => None,
    }
}

/// One shortcut file that a scan found.
#[derive(Debug, Clone)]
pub struct ShortcutFile {
    /// Where the shortcut lies.
    pub path: String,
    /// Its bytes.
    pub bytes: Vec<u8>,
    /// Its target candidate, canonicalised, if that succeeded.
    pub canonical_target: Option<String>,
}

/// The app that one shortcut file describes; a file that is not a
/// well-framed shell link (see [`lnk_well_framed`]) describes none.
pub open spec fn shortcut_file_app(f: ShortcutFile, env: Seq<(String, String)>) -> Option<AppView> {
    if !lnk_well_framed(f.bytes@) {
        None
    } else {
        match lnk_string_data(f.bytes@) {
            Some(d) => shortcut_app(f.path@, d, env, opt_view(f.canonical_target)),
            None => None,
        }
    }
}

/// The app that the shortcut file `file` describes; `None` where parselnk
/// refuses it or it has no resolvable target.
pub fn app_from_shortcut(file: &ShortcutFile, env: &Vec<(String, String)>) -> (r: Option<App>)
    ensures
        match r {
            Some(a) => shortcut_file_app(*file, env@) == Some(a@),
            None => shortcut_file_app(*file, env@) is None,
        },
{
    if !lnk_framed(file.bytes.as_slice()) {
        return None;
    }
    match parse_lnk_bytes(file.bytes.as_slice()) {
        Some(fields) => app_of(file.path.as_str(), &fields, env, &file.canonical_target),
        None => None,
    }
}

/// The apps that `files` describe, in order, skipping those without one.
pub open spec fn windows_raw(files: Seq<ShortcutFile>, env: Seq<(String, String)>) -> Seq<AppView>
    decreases files.len(),
{
    if files.len() == 0 {
        seq![]
    } else {
        let r = windows_raw(files.drop_last(), env);
        match shortcut_file_app(files.last(), env) {
            Some(a) => r.push(a),
            None => r,
        }
    }
}

/// The Windows app list of one scan: the apps that the shortcut files
/// describe, each app once, in the order first found; a shortcut that gives
/// no app is skipped and the rest go on.
pub fn get_all_apps(files: &Vec<ShortcutFile>, env: &Vec<(String, String)>) -> (r: Vec<App>)
    ensures
        apps_view(r@) == dedup(windows_raw(files@, env@)),
{
    let mut rec = Reconciler::new();
    let mut i: usize = 0;
    assert(apps_view(rec.apps@) =~= dedup(windows_raw(files@.take(0), env@)));
    while i < files.len()
        invariant
            i <= files@.len(),
            apps_view(rec.apps@) == dedup(windows_raw(files@.take(i as int), env@)),
        decreases files@.len() - i,
    {
        let ghost t = files@.take(i + 1);
        assert(t.drop_last() =~= files@.take(i as int));
        assert(t.last() == files@[i as int]);
        let ghost prev = windows_raw(files@.take(i as int), env@);
        match app_from_shortcut(&files[i], env) {
            Some(app) => {
                assert(windows_raw(t, env@) == prev.push(app@));
                assert(prev.push(app@).drop_last() =~= prev);
                rec.insert(app);
            },
            None => {
                assert(windows_raw(t, env@) == prev);
            },
        }
        i = i + 1;
    }
    assert(files@.take(files@.len() as int) =~= files@);
    rec.apps
}

proof fn lemma_raw_holds(files: Seq<ShortcutFile>, env: Seq<(String, String)>, i: int)
    requires
        0 <= i < files.len(),
        shortcut_file_app(files[i], env) is Some,
    ensures
        windows_raw(files, env).contains(shortcut_file_app(files[i], env)->0),
    decreases files.len(),
{
    let a = shortcut_file_app(files[i], env)->0;
    let p = files.drop_last();
    if i == files.len() - 1 {
        let r = windows_raw(files, env);
        assert(r[r.len() - 1] == a);
    } else {
        assert(p[i] == files[i]);
        lemma_raw_holds(p, env, i);
        let rp = windows_raw(p, env);
        let k = choose|k: int| 0 <= k < rp.len() && rp[k] == a;
        assert(windows_raw(files, env)[k] == a);
    }
}

/// A shortcut that gives an app has that app in the final list, whatever
/// the other shortcuts of the scan are: one that gives none is skipped and
/// the scan goes on.
pub proof fn lemma_scan_goes_on(files: Seq<ShortcutFile>, env: Seq<(String, String)>, i: int)
    requires
        0 <= i < files.len(),
        shortcut_file_app(files[i], env) is Some,
    ensures
        dedup(windows_raw(files, env)).contains(shortcut_file_app(files[i], env)->0),
{
    lemma_raw_holds(files, env, i);
    crate::common::lemma_dedup_contains(windows_raw(files, env));
}

/// The default Windows roots, scanned to any depth: the Start Menu programs
/// of all users, and those below `appdata`, the value of `APPDATA`.
pub fn get_default_search_paths(appdata: Option<String>) -> (r: Result<Vec<SearchPath>, AppError>)
    ensures
        match r {
            Ok(v) => appdata is Some && crate::common::paths_view(v@) == seq![
                ("C:\\ProgramData\\Microsoft\\Windows\\Start Menu\\Programs"@, 255u8),
                (appdata->0@ + "\\Microsoft\\Windows\\Start Menu\\Programs"@, 255u8),
            ],
            Err(e) => appdata is None && e == AppError::MissingEnvironment,
        },
{
    let appdata = match appdata {
        Some(a) => a,
        None => {
            return Err(AppError::MissingEnvironment);
        },
    };
    let a = chars_of(appdata.as_str());
    let tail = chars_of("\\Microsoft\\Windows\\Start Menu\\Programs");
    let user = string_of(&concat(&a, &tail));
    let mut v: Vec<SearchPath> = Vec::new();
    v.push(SearchPath::new("C:\\ProgramData\\Microsoft\\Windows\\Start Menu\\Programs".to_string(), 255));
    v.push(SearchPath::new(user, 255));
    assert(crate::common::paths_view(v@) =~= seq![
        ("C:\\ProgramData\\Microsoft\\Windows\\Start Menu\\Programs"@, 255u8),
        (appdata@ + "\\Microsoft\\Windows\\Start Menu\\Programs"@, 255u8),
    ]);
    Ok(v)
}

/// The properties that the shell's `WScript.Shell` object reports for a
/// shortcut.
#[derive(Debug, Clone)]
pub struct PowerShellLnkParseResult {
    pub icon_location: String,
    pub description: String,
    pub working_directory: String,
    pub arguments: String,
    pub hotkey: String,
    pub window_style: i64,
    pub target_path: String,
}

/// The app that the shell's report on the shortcut at `lnk_path` describes:
/// named after the shortcut file, its executable the target, its folder the
/// working directory where one is given and the target's folder otherwise,
/// its icon the icon location where one is given.
pub fn parse_lnk_with_powershell_2(lnk_path: &str, parsed: &PowerShellLnkParseResult) -> (r: App)
    ensures
        r@ == (AppView {
            name: file_stem(lnk_path@, true),
            icon_path: if parsed.icon_location@.len() == 0 {
                None
            } else {
                Some(parsed.icon_location@)
            },
            app_path_exe: Some(parsed.target_path@),
            app_desktop_path: if parsed.working_directory@.len() == 0 {
                parent(parsed.target_path@, true)
            } else {
                parsed.working_directory@
            },
        }),
{
    let target = chars_of(parsed.target_path.as_str());
    let desktop = if parsed.working_directory.as_str().is_empty() {
        string_of(&parent_of(&target, true))
    } else {
        parsed.working_directory.clone()
    };
    let icon_path = if parsed.icon_location.as_str().is_empty() {
        None
    } else {
        Some(parsed.icon_location.clone())
    };
    let lp = chars_of(lnk_path);
    App {
        name: string_of(&file_stem_of(&lp, true)),
        icon_path,
        app_path_exe: Some(parsed.target_path.clone()),
        app_desktop_path: desktop,
    }
}

/// Running applications: Windows offers this library no facility for them,
/// so the list is empty.
pub fn get_running_apps() -> (r: Vec<App>)
    ensures
        r@.len() == 0,
{
    Vec::new()
}

/// The frontmost application: not available on Windows.
pub fn get_frontmost_application() -> (r: Result<App, AppError>)
    ensures
        r == Err::<App, AppError>(AppError::NotImplemented),
{
    Err(AppError::NotImplemented)
}

/// The command that opens `file_path` with `app`: its executable, then the
/// file; `None` when the app has no executable.
pub fn open_file_with(file_path: &str, app: &App) -> (r: Option<Vec<String>>)
    ensures
        match r {
            Some(v) => app.app_path_exe is Some && crate::scan::strs_view(v@) == seq![
                app.app_path_exe->0@,
                file_path@,
            ],
            None => app.app_path_exe is None,
        },
{
    crate::common::exec_command(file_path, app)
}

} // verus!
