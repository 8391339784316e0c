//! The deployer's own computations: the Anki version check, the deploy
//! counter kept in `pre\deploy_count.txt`, and the folders and files that
//! deployment touches.
use vstd::prelude::*;
use crate::number::{decimal, parse_u8, parse_u8_chars, u8_to_decimal, IntParseError, lemma_parse_decimal};
use crate::paths::{join, join_path, is_plain_relative};
use crate::send::{desktop_dir, desktop_dir_spec};
use crate::text::{chars_of, fields, lemma_fields_nonempty, split_fields, trim, trim_chars, trim_start, trim_end, is_white_space, views};

verus! {

/// The numbers of a version text such as `2.1.36`, one per dot-separated
/// field, or `None` when some field is not the decimal form of a `u8`.
pub open spec fn version_numbers(v: Seq<char>) -> Option<Seq<u8>> {
    let fs = fields(v, '.');
    if forall|i: int| 0 <= i < fs.len() ==> #[trigger] parse_u8(fs[i]) is Ok {
        Some(Seq::new(fs.len(), |i: int| parse_u8(fs[i])->Ok_0))
    } else {
        None
    }
}

/// The `i`-th number of a version, a missing one counting as 0 (so that
/// `2.2` is `2.2.0`).
pub open spec fn version_at(a: Seq<u8>, i: int) -> int {
    if 0 <= i < a.len() {
        a[i] as int
    } else {
        0
    }
}

/// Whether version `a` is above version `b`, compared number by number from
/// the left.
pub open spec fn version_greater(a: Seq<u8>, b: Seq<u8>) -> bool {
    exists|k: int|
        0 <= k && (forall|j: int| 0 <= j < k ==> version_at(a, j) == version_at(b, j))
            && #[trigger] version_at(a, k) > version_at(b, k)
}

/// The oldest Anki version that the sync add-on does not support: 2.1.10.
pub open spec fn anki_2_1_10() -> Seq<u8> {
    seq![2u8, 1u8, 10u8]
}

/// A version text reads as numbers exactly when every dot-separated field
/// reads as a `u8` on its own, and then its numbers are those readings, one
/// per field, in order.
pub proof fn lemma_version_numbers_read_each_field(v: Seq<char>)
    ensures
        (version_numbers(v) is Some) == (forall|i: int|
            0 <= i < fields(v, '.').len() ==> #[trigger] parse_u8(fields(v, '.')[i]) is Ok),
        version_numbers(v) matches Some(n) ==> n.len() == fields(v, '.').len() && forall|i: int|
            0 <= i < n.len() ==> parse_u8(fields(v, '.')[i]) == Ok::<u8, IntParseError>(
                #[trigger] n[i],
            ),
{
}

/// The number of a version at index `i`, a missing one counting as 0.
pub open spec fn number_at(n: Seq<u8>, i: int) -> int {
    if 0 <= i < n.len() {
        n[i] as int
    } else {
        0
    }
}

/// A version is above 2.1.10 exactly when its first number is above 2, or
/// it is 2 and the second is above 1, or those are 2.1 and the third is
/// above 10, or those are 2.1.10 and some later number is not 0.
pub proof fn lemma_above_2_1_10(n: Seq<u8>)
    ensures
        version_greater(n, seq![2u8, 1u8, 10u8]) == (number_at(n, 0) > 2 || (number_at(n, 0) == 2
            && (number_at(n, 1) > 1 || (number_at(n, 1) == 1 && (number_at(n, 2) > 10 || (number_at(
            n,
            2,
        ) == 10 && exists|k: int| 3 <= k < n.len() && #[trigger] n[k] > 0)))))),
{
    let b = seq![2u8, 1u8, 10u8];
    assert(version_at(b, 0) == 2 && version_at(b, 1) == 1 && version_at(b, 2) == 10);
    assert forall|i: int| 0 <= i < 3 implies version_at(n, i) == #[trigger] number_at(n, i) by {}
    if version_greater(n, b) {
        let k = choose|k: int|
            0 <= k && (forall|j: int| 0 <= j < k ==> version_at(n, j) == version_at(b, j))
                && #[trigger] version_at(n, k) > version_at(b, k);
        if k == 0 {
        } else if k == 1 {
            assert(version_at(n, 0) == version_at(b, 0));
        } else if k == 2 {
            assert(version_at(n, 0) == version_at(b, 0));
            assert(version_at(n, 1) == version_at(b, 1));
        } else {
            assert(version_at(n, 0) == version_at(b, 0));
            assert(version_at(n, 1) == version_at(b, 1));
            assert(version_at(n, 2) == version_at(b, 2));
            assert(version_at(b, k) == 0);
            assert(k < n.len() && n[k] > 0);
        }
    }
    if number_at(n, 0) > 2 {
        assert(version_at(n, 0) > version_at(b, 0));
    } else if number_at(n, 0) == 2 && number_at(n, 1) > 1 {
        assert(forall|j: int| 0 <= j < 1 ==> version_at(n, j) == version_at(b, j));
        assert(version_at(n, 1) > version_at(b, 1));
    } else if number_at(n, 0) == 2 && number_at(n, 1) == 1 && number_at(n, 2) > 10 {
        assert(forall|j: int| 0 <= j < 2 ==> version_at(n, j) == version_at(b, j));
        assert(version_at(n, 2) > version_at(b, 2));
    } else if number_at(n, 0) == 2 && number_at(n, 1) == 1 && number_at(n, 2) == 10 && exists|
        k: int,
    | 3 <= k < n.len() && #[trigger] n[k] > 0 {
        let k = choose|k: int| 3 <= k < n.len() && #[trigger] n[k] > 0;
        lemma_first_nonzero_from_3(n, k);
        let m = choose|m: int|
            3 <= m <= k && n[m] > 0 && forall|j: int| 3 <= j < m ==> #[trigger] n[j] == 0;
        assert forall|j: int| 0 <= j < m implies version_at(n, j) == version_at(b, j) by {
            if j >= 3 {
                assert(n[j] == 0);
            }
        }
        assert(version_at(n, m) > version_at(b, m));
    }
}

/// Among the numbers from index 3 on, a nonzero one has a first nonzero one
/// at or before it.
proof fn lemma_first_nonzero_from_3(n: Seq<u8>, k: int)
    requires
        3 <= k < n.len(),
        n[k] > 0,
    ensures
        exists|m: int| 3 <= m <= k && n[m] > 0 && forall|j: int| 3 <= j < m ==> #[trigger] n[j] == 0,
    decreases k,
{
    if forall|j: int| 3 <= j < k ==> #[trigger] n[j] == 0 {
        assert(3 <= k <= k && n[k] > 0);
    } else {
        let j = choose|j: int| 3 <= j < k && !(#[trigger] n[j] == 0);
        lemma_first_nonzero_from_3(n, j);
    }
}

/// The numbers of the version text `s`, or `None` when it is not made of
/// `u8` decimals separated by dots.
pub fn parse_version(s: &str) -> (r: Option<Vec<u8>>)
    ensures
        match r {
            Some(n) => version_numbers(s@) == Some(n@),
            None => version_numbers(s@) is None,
        },
        (r is Some) == (forall|i: int|
            0 <= i < fields(s@, '.').len() ==> #[trigger] parse_u8(fields(s@, '.')[i]) is Ok),
        r matches Some(n) ==> n@.len() == fields(s@, '.').len() && forall|i: int|
            0 <= i < n@.len() ==> parse_u8(fields(s@, '.')[i]) == Ok::<u8, IntParseError>(
                #[trigger] n@[i],
            ),
{
    proof {
        lemma_version_numbers_read_each_field(s@);
    }
    let v = chars_of(s);
    let parts = split_fields(&v, '.');
    let ghost fs = fields(s@, '.');
    let mut out: Vec<u8> = Vec::new();
    let mut i: usize = 0;
    while i < parts.len()
        invariant
            i <= parts@.len(),
            views(parts@) == fs,
            fs == fields(s@, '.'),
            out@.len() == i,
            forall|j: int| 0 <= j < i ==> parse_u8(fs[j]) == Ok::<u8, IntParseError>(out@[j]),
        decreases parts@.len() - i,
    {
        assert(views(parts@)[i as int] == parts@[i as int]@);
        match parse_u8_chars(&parts[i]) {
            Ok(x) => out.push(x),
            Err(_) => {
                assert(!(parse_u8(fs[i as int]) is Ok));
                return None;
            },
        }
        i = i + 1;
    }
    assert(forall|j: int| 0 <= j < fs.len() ==> #[trigger] parse_u8(fs[j]) is Ok);
    assert(Seq::new(fs.len(), |j: int| parse_u8(fs[j])->Ok_0) =~= out@);
    Some(out)
}

/// Whether version `a` is above version `b`.
pub fn version_is_greater(a: &Vec<u8>, b: &Vec<u8>) -> (r: bool)
    ensures
        r == version_greater(a@, b@),
{
    let n = if a.len() > b.len() { a.len() } else { b.len() };
    let mut i: usize = 0;
    while i < n
        invariant
            i <= n,
            n == a@.len() || n == b@.len(),
            a@.len() <= n && b@.len() <= n,
            forall|j: int| 0 <= j < i ==> version_at(a@, j) == version_at(b@, j),
        decreases n - i,
    {
        let x: u8 = if i < a.len() { a[i] } else { 0 };
        let y: u8 = if i < b.len() { b[i] } else { 0 };
        assert(x as int == version_at(a@, i as int) && y as int == version_at(b@, i as int));
        if x > y {
            return true;
        }
        if x < y {
            assert forall|k: int|
                0 <= k && (forall|j: int| 0 <= j < k ==> version_at(a@, j) == version_at(b@, j))
                implies !(#[trigger] version_at(a@, k) > version_at(b@, k)) by {
                if k > i {
                    assert(version_at(a@, i as int) == version_at(b@, i as int));
                }
            }
            return false;
        }
        i = i + 1;
    }
    assert forall|k: int|
        0 <= k && (forall|j: int| 0 <= j < k ==> version_at(a@, j) == version_at(b@, j))
        implies !(#[trigger] version_at(a@, k) > version_at(b@, k)) by {
        if k >= n {
        }
    }
    false
}

/// Whether the installed Anki is above 2.1.10. `display_version` is the
/// registry's version text, or `None` when it could not be read; a text that
/// is not a version (some field is not a number) is not above it.
pub fn pc_ver_required(display_version: Option<&str>) -> (r: bool)
    ensures
        r == match display_version {
            Some(s) => version_numbers(s@) matches Some(n) && version_greater(n, anki_2_1_10()),
            None => false,
        },
        display_version matches Some(s) ==> {
            let fs = fields(s@, '.');
            (forall|i: int| 0 <= i < fs.len() ==> #[trigger] parse_u8(fs[i]) is Ok) ==> {
                &&& parse_u8(fs[0])->Ok_0 > 2 ==> r
                &&& parse_u8(fs[0])->Ok_0 < 2 ==> !r
            }
        },
        display_version matches Some(s) ==> (exists|i: int|
            0 <= i < fields(s@, '.').len() && !(#[trigger] parse_u8(fields(s@, '.')[i]) is Ok))
            ==> !r,
{
    proof {
        if let Some(s) = display_version {
            lemma_version_numbers_read_each_field(s@);
            if let Some(n) = version_numbers(s@) {
                lemma_above_2_1_10(n);
                assert(anki_2_1_10() == seq![2u8, 1u8, 10u8]);
                lemma_fields_nonempty(s@, '.');
                assert(parse_u8(fields(s@, '.')[0]) == Ok::<u8, IntParseError>(n[0]));
            }
        }
    }
    match display_version {
        Some(s) => match parse_version(s) {
            Some(n) => {
                let base = vec![2u8, 1u8, 10u8];
                assert(base@ =~= anki_2_1_10());
                version_is_greater(&n, &base)
            },
            None => false,
        },
        None => false,
    }
}

/// The deploy count that the content of `deploy_count.txt` holds: 0 when it
/// is blank, else the whole content read as a `u8`.
pub open spec fn deploy_count_spec(content: Seq<char>) -> Result<u8, IntParseError> {
    if trim(content).len() == 0 {
        Ok(0)
    } else {
        parse_u8(content)
    }
}

/// The deploy count that the content of `deploy_count.txt` holds.
pub fn parse_deploy_count(content: &str) -> (r: Result<u8, IntParseError>)
    ensures
        r == deploy_count_spec(content@),
{
    let t = trim_chars(content);
    if t.as_str().unicode_len() == 0 {
        return Ok(0);
    }
    let v = chars_of(content);
    parse_u8_chars(&v)
}

/// The content written back to `deploy_count.txt` after one more deployment:
/// the count read from `content`, plus one, in decimal. A count of 255 is
/// ruled out, as the deployer stops on it.
pub fn deploy_count_plusone(content: &str) -> (r: Result<String, IntParseError>)
    requires
        deploy_count_spec(content@) matches Ok(c) ==> c < 255,
    ensures
        match deploy_count_spec(content@) {
            Ok(c) => r matches Ok(t) && t@ == decimal((c + 1) as u8),
            Err(e) => r == Err::<String, IntParseError>(e),
        },
{
    match parse_deploy_count(content) {
        Ok(c) => Ok(u8_to_decimal(c + 1)),
        Err(e) => Err(e),
    }
}

/// The decimal form of a count is not blank.
proof fn lemma_decimal_not_blank(n: u8)
    ensures
        trim(decimal(n)).len() > 0,
{
    let d = decimal(n);
    assert(!is_white_space(d[0]));
    assert(!is_white_space(d.last()));
    assert(trim_start(d) == d);
    assert(trim_end(d) == d);
}

/// What one more deployment writes to `deploy_count.txt` reads back as the
/// count it read, plus one.
pub proof fn lemma_deploy_count_round_trip(content: Seq<char>, count: u8)
    requires
        deploy_count_spec(content) == Ok::<u8, IntParseError>(count),
        count < 255,
    ensures
        deploy_count_spec(decimal((count + 1) as u8)) == Ok::<u8, IntParseError>((count + 1) as u8),
{
    lemma_decimal_not_blank((count + 1) as u8);
    lemma_parse_decimal((count + 1) as u8);
}

/// The folder the deployer keeps its files in.
pub const ROOT_DIR: &'static str = "pre";

/// Where the deploy count is kept.
pub const DEPLOY_COUNT_PATH: &'static str = r"pre\deploy_count.txt";

/// The folder the deployer keeps its files in.
pub fn root_dir() -> (p: String)
    ensures
        p@ == ROOT_DIR@,
{
    ROOT_DIR.to_owned()
}

/// Where the deploy count is kept.
pub fn deploy_count_path() -> (p: String)
    ensures
        p@ == DEPLOY_COUNT_PATH@,
{
    DEPLOY_COUNT_PATH.to_owned()
}

/// The Anki add-on folder of the sync add-on for the Windows user
/// `username`: `C:\Users\<username>\AppData\Roaming\Anki2\addons21\ankisyncd`.
/// A user name is a plain folder name (Windows refuses `\`, `/` and `:` in
/// one), which is what `requires` asks.
pub fn ankisyncd_addon_dir(username: &str) -> (p: String)
    requires
        is_plain_relative(username@),
    ensures
        p@ == join(
            join(join(r"C:\Users"@, username@), r"AppData\Roaming\Anki2\addons21"@),
            "ankisyncd"@,
        ),
{
    proof {
        reveal_strlit(r"AppData\Roaming\Anki2\addons21");
        reveal_strlit("ankisyncd");
    }
    let users = join_path(r"C:\Users", username);
    let addons = join_path(users.as_str(), r"AppData\Roaming\Anki2\addons21");
    join_path(addons.as_str(), "ankisyncd")
}

/// The add-on files that the deployer ships, under `current_dir`.
pub fn addon_source_dir(current_dir: &str) -> (p: String)
    ensures
        p@ == join(current_dir@, r"pre\addon\ankisyncd"@),
{
    proof {
        reveal_strlit(r"pre\addon\ankisyncd");
    }
    join_path(current_dir, r"pre\addon\ankisyncd")
}

/// A source file and the place it is copied to.
pub struct CopyPaths {
    /// The file copied.
    pub from: String,
    /// Where it is copied to.
    pub to: String,
}

/// Where mkcert leaves its root certificate for the user whose profile folder
/// is `user_profile`, and where it is copied on the desktop.
pub fn rootca_paths(user_profile: &str) -> (p: CopyPaths)
    ensures
        p.from@ == join(user_profile@, r"AppData\Local\mkcert\rootCA.pem"@),
        p.to@ == join(desktop_dir_spec(user_profile@), "rootCA.crt"@),
{
    proof {
        reveal_strlit(r"AppData\Local\mkcert\rootCA.pem");
        reveal_strlit("rootCA.crt");
    }
    let desk = desktop_dir(user_profile);
    CopyPaths {
        from: join_path(user_profile, r"AppData\Local\mkcert\rootCA.pem"),
        to: join_path(desk.as_str(), "rootCA.crt"),
    }
}

/// File name of the sync server's desktop shortcut.
pub const SERVER_LNK: &'static str = "anki_server.lnk";

/// The sync server executable under `current_dir`, and its shortcut on the
/// desktop of the user whose profile folder is `user_profile`.
pub fn server_shortcut_paths(current_dir: &str, user_profile: &str) -> (p: CopyPaths)
    ensures
        p.from@ == join(current_dir@, r"pre\ankisyncd.exe"@),
        p.to@ == join(desktop_dir_spec(user_profile@), SERVER_LNK@),
{
    proof {
        reveal_strlit(r"pre\ankisyncd.exe");
        reveal_strlit("anki_server.lnk");
    }
    let desk = desktop_dir(user_profile);
    CopyPaths {
        from: join_path(current_dir, r"pre\ankisyncd.exe"),
        to: join_path(desk.as_str(), SERVER_LNK),
    }
}

/// The folder made for the server in the user's start menu.
pub const STARTMENU_FOLDER: &'static str = "anki_server";

/// The start menu folder made for the server, the server's desktop shortcut,
/// and the copy of that shortcut in the folder.
pub struct StartMenuPaths {
    /// The folder made under the user's start menu programs.
    pub folder: String,
    /// The desktop shortcut.
    pub from: String,
    /// Its copy in the folder.
    pub to: String,
}

/// The folder made for the server in the start menu of the user whose
/// profile folder is `user_profile`, and the shortcut copied into it from
/// the desktop.
pub fn startmenu_paths(user_profile: &str) -> (p: StartMenuPaths)
    ensures
        p.folder@ == join(
            join(user_profile@, r"AppData\Roaming\Microsoft\Windows\Start Menu\Programs"@),
            STARTMENU_FOLDER@,
        ),
        p.from@ == join(desktop_dir_spec(user_profile@), SERVER_LNK@),
        p.to@ == join(p.folder@, SERVER_LNK@),
{
    proof {
        reveal_strlit(r"AppData\Roaming\Microsoft\Windows\Start Menu\Programs");
        reveal_strlit("anki_server.lnk");
        reveal_strlit("anki_server");
    }
    let desk = desktop_dir(user_profile);
    let menu = join_path(user_profile, r"AppData\Roaming\Microsoft\Windows\Start Menu\Programs");
    let folder = join_path(menu.as_str(), STARTMENU_FOLDER);
    let to = join_path(folder.as_str(), SERVER_LNK);
    StartMenuPaths { folder, from: join_path(desk.as_str(), SERVER_LNK), to }
}

} // verus!
