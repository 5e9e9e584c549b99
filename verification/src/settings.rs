use vstd::prelude::*;
use vstd::string::*;
use crate::compression::{zstd_default_level, zstd_level_range};
use crate::errors::{Errors, Res};
use crate::numbers::{
    lemma_parse_int_range, chars_of, int_error_text, IntErrorKind, parse_i32, parse_i32_spec, parse_u16, parse_u16_spec, signed_decimal,
    signed_decimal_string,
};
use crate::text::{lemma_first_index, lines, scan_lines, split_once, strip_cr, trim, trim_bounds, trim_end, trim_start};
use crate::DbConfig;

verus! {

/// The values of the environment variables that the settings are read
/// from. A variable that must be set holds its value or the reason it
/// could not be read; an optional one holds its value when it could be read.
#[derive(Debug)]
pub struct EnvVars {
    pub db_host: Result<String, String>,
    pub db_username: Result<String, String>,
    pub db_password: Result<String, String>,
    pub db_name: Result<String, String>,
    pub drive_creds: Result<String, String>,
    pub drive_folder_id: Option<String>,
    pub data_folder: Option<String>,
    pub db_port: Result<String, String>,
    pub compression_level: Option<String>,
}

/// The settings of the backup tool.
#[derive(Debug, Clone)]
pub struct Settings {
    db_host: String,
    db_port: u16,
    db_username: String,
    db_password: String,
    db_name: String,
    pub drive_creds: String,
    /// dump backups to this folder
    pub data_folder: Option<String>,
    /// compression level, default is 3
    pub comp_level: i32,
    pub drive_folder_id: Option<String>,
}

/// The least and greatest compression levels accepted.
pub open spec fn min_level() -> int {
    -131072
}

pub open spec fn max_level() -> int {
    22
}

/// The text of a compression level outside the accepted range.
pub open spec fn level_range_text(level: int) -> Seq<char> {
    "Compression level must be in "@ + signed_decimal(min_level()) + "..="@ + signed_decimal(
        max_level(),
    ) + ", "@ + signed_decimal(level) + " found"@
}

/// What the settings are made of, or the text of the first problem found:
/// a missing variable (in the order host, user name, password, database
/// name, drive credentials), a data folder that ends with `/`, a missing or
/// malformed or zero port, a malformed or out-of-range compression level
/// (3 when the variable is not set).
pub open spec fn env_outcome(v: EnvVars) -> Result<(int, int), Seq<char>> {
    if v.db_host is Err {
        Err(v.db_host->Err_0@)
    } else if v.db_username is Err {
        Err(v.db_username->Err_0@)
    } else if v.db_password is Err {
        Err(v.db_password->Err_0@)
    } else if v.db_name is Err {
        Err(v.db_name->Err_0@)
    } else if v.drive_creds is Err {
        Err(v.drive_creds->Err_0@)
    } else if v.data_folder is Some && v.data_folder->0@.len() > 0 && v.data_folder->0@.last()
        == '/' {
        Err("DATA_FOLDER could not ends with '/'"@)
    } else if v.db_port is Err {
        Err(v.db_port->Err_0@)
    } else {
        match parse_u16_spec(v.db_port->Ok_0@) {
            Err(k) => Err("DB_PORT must be int: "@ + int_error_text(k)),
            Ok(port) => if port == 0 {
                Err("DB_PORT must not be 0"@)
            } else {
                let level = match v.compression_level {
                    Some(text) => parse_i32_spec(text@),
                    None => Ok(3),
                };
                match level {
                    Err(k) => Err("COMPRESSION_LEVEL must be int: "@ + int_error_text(k)),
                    Ok(l) => if min_level() <= l <= max_level() {
                        Ok((port, l))
                    } else {
                        Err(level_range_text(l))
                    },
                }
            },
        }
    }
}

/// Settings that are built have a port other than 0 and a compression
/// level that zstd accepts.
pub proof fn law_settings_in_range(v: EnvVars)
    requires
        env_outcome(v) is Ok,
    ensures
        1 <= env_outcome(v)->Ok_0.0 <= 0xffff,
        min_level() <= env_outcome(v)->Ok_0.1 <= max_level(),
{
    let port_text = v.db_port->Ok_0@;
    lemma_parse_int_range(port_text, false, 0, 0xffff);
    match v.compression_level {
        Some(text) => lemma_parse_int_range(text@, true, -0x8000_0000, 0x7fff_ffff),
        None => {},
    }
}

impl Settings {
    /// The database host.
    pub closed spec fn host(&self) -> Seq<char> {
        self.db_host@
    }

    /// The database port.
    pub closed spec fn port(&self) -> u16 {
        self.db_port
    }

    /// The database user name.
    pub closed spec fn username(&self) -> Seq<char> {
        self.db_username@
    }

    /// The database password.
    pub closed spec fn password(&self) -> Seq<char> {
        self.db_password@
    }

    /// The database name.
    pub closed spec fn name(&self) -> Seq<char> {
        self.db_name@
    }

    /// The compression level.
    pub closed spec fn level(&self) -> i32 {
        self.comp_level
    }

    /// The Google Drive credentials.
    pub closed spec fn creds(&self) -> String {
        self.drive_creds
    }

    /// The Google Drive folder that dumps go to, when it is set.
    pub closed spec fn folder_id(&self) -> Option<String> {
        self.drive_folder_id
    }

    /// The local folder that dumps go to, when it is set.
    pub closed spec fn folder(&self) -> Option<String> {
        self.data_folder
    }

    /// Builds the settings from the environment's values, or gives the
    /// first problem found as an `EnvError`.
    pub fn parse(vars: EnvVars) -> (r: Res<Settings>)
        ensures
            match r {
                Ok(s) => {
                    &&& env_outcome(vars) == Ok::<(int, int), Seq<char>>((s.port() as int, s.level() as int))
                    &&& s.host() == vars.db_host->Ok_0@
                    &&& s.username() == vars.db_username->Ok_0@
                    &&& s.password() == vars.db_password->Ok_0@
                    &&& s.name() == vars.db_name->Ok_0@
                    &&& s.creds() == vars.drive_creds->Ok_0
                    &&& s.folder_id() == vars.drive_folder_id
                    &&& s.folder() == vars.data_folder
                },
                Err(Errors::EnvError(m)) => env_outcome(vars) == Err::<(int, int), Seq<char>>(m@),
                Err(_) => false,
            },
    {
        let ghost v = vars;
        let EnvVars {
            db_host,
            db_username,
            db_password,
            db_name,
            drive_creds,
            drive_folder_id,
            data_folder,
            db_port,
            compression_level,
        } = vars;
        let db_host = match db_host {
            Ok(x) => x,
            Err(m) => return Err(Errors::EnvError(m)),
        };
        let db_username = match db_username {
            Ok(x) => x,
            Err(m) => return Err(Errors::EnvError(m)),
        };
        let db_password = match db_password {
            Ok(x) => x,
            Err(m) => return Err(Errors::EnvError(m)),
        };
        let db_name = match db_name {
            Ok(x) => x,
            Err(m) => return Err(Errors::EnvError(m)),
        };
        let drive_creds = match drive_creds {
            Ok(x) => x,
            Err(m) => return Err(Errors::EnvError(m)),
        };
        match &data_folder {
            Some(folder) => {
                let n = folder.as_str().unicode_len();
                if n > 0 && folder.as_str().get_char(n - 1) == '/' {
                    return Err(Errors::EnvError(String::from_str("DATA_FOLDER could not ends with '/'")));
                }
            },
            None => {},
        }
        let port_text = match db_port {
            Ok(x) => x,
            Err(m) => return Err(Errors::EnvError(m)),
        };
        let db_port = match parse_u16(port_text.as_str()) {
            Ok(p) => p,
            Err(k) => {
                let msg = String::from_str("DB_PORT must be int: ").concat(k.description().as_str());
                return Err(Errors::EnvError(msg));
            },
        };
        if db_port == 0 {
            return Err(Errors::EnvError(String::from_str("DB_PORT must not be 0")));
        }
        let comp_level = match &compression_level {
            Some(text) => match parse_i32(text.as_str()) {
                Ok(l) => l,
                Err(k) => {
                    let msg = String::from_str("COMPRESSION_LEVEL must be int: ").concat(
                        k.description().as_str(),
                    );
                    return Err(Errors::EnvError(msg));
                },
            },
            None => zstd_default_level(),
        };
        let (lo, hi) = zstd_level_range();
        if comp_level < lo || comp_level > hi {
            let msg = String::from_str("Compression level must be in ").concat(
                signed_decimal_string(lo as i64).as_str(),
            ).concat("..=").concat(signed_decimal_string(hi as i64).as_str()).concat(", ").concat(
                signed_decimal_string(comp_level as i64).as_str(),
            ).concat(" found");
            return Err(Errors::EnvError(msg));
        }
        Ok(Settings {
            db_host,
            db_port,
            db_username,
            db_password,
            db_name,
            drive_creds,
            data_folder,
            comp_level,
            drive_folder_id,
        })
    }
}

impl Settings {
    /// The compression level; the public field, readable by verified code
    /// outside this module, which cannot read the fields of `Settings`.
    pub fn comp_level(&self) -> (r: i32)
        ensures
            r == self.level(),
    {
        self.comp_level
    }

    /// The Google Drive credentials.
    pub fn drive_creds(&self) -> (r: &String)
        ensures
            *r == self.creds(),
    {
        &self.drive_creds
    }

    /// The local folder that dumps go to, when it is set.
    pub fn data_folder(&self) -> (r: &Option<String>)
        ensures
            *r == self.folder(),
    {
        &self.data_folder
    }

    /// The Google Drive folder that dumps go to, when it is set.
    pub fn drive_folder_id(&self) -> (r: &Option<String>)
        ensures
            *r == self.folder_id(),
    {
        &self.drive_folder_id
    }
}

impl DbConfig for Settings {
    fn db_host(&self) -> (r: &String)
        ensures
            r@ == self.host(),
    {
        &self.db_host
    }

    fn db_port(&self) -> (r: u16)
        ensures
            r == self.port(),
    {
        self.db_port
    }

    fn db_username(&self) -> (r: &String)
        ensures
            r@ == self.username(),
    {
        &self.db_username
    }

    fn db_password(&self) -> (r: &String)
        ensures
            r@ == self.password(),
    {
        &self.db_password
    }

    fn db_name(&self) -> (r: &String)
        ensures
            r@ == self.name(),
    {
        &self.db_name
    }
}

/// The variable that a line of an env file sets: the text before the
/// first `=` and the text after it, both trimmed; none if there is no `=`.
pub open spec fn env_entry(line: Seq<char>) -> Option<(Seq<char>, Seq<char>)> {
    match split_once(line, '=') {
        Some((name, value)) => Some((trim(name), trim(value))),
        None => None,
    }
}

/// The variables that the lines `ls` set, in order.
pub open spec fn entries_of(ls: Seq<Seq<char>>) -> Seq<(Seq<char>, Seq<char>)>
    decreases ls.len(),
{
    if ls.len() == 0 {
        Seq::empty()
    } else {
        let before = entries_of(ls.drop_last());
        match env_entry(ls.last()) {
            Some(e) => before.push(e),
            None => before,
        }
    }
}

/// The texts of pairs of strings.
pub open spec fn pair_views(r: Seq<(String, String)>) -> Seq<(Seq<char>, Seq<char>)> {
    r.map_values(|p: (String, String)| (p.0@, p.1@))
}

/// Reading one more character either ends the current line or extends it.
proof fn lemma_scan_step(s: Seq<char>, i: int)
    requires
        0 <= i < s.len(),
    ensures
        ({
            let (done, cur) = scan_lines(s.take(i));
            let (done2, cur2) = scan_lines(s.take(i + 1));
            if s[i] == '\n' {
                done2 == done.push(strip_cr(cur)) && cur2 == Seq::<char>::empty()
            } else {
                done2 == done && cur2 == cur.push(s[i])
            }
        }),
        entries_of(scan_lines(s.take(i + 1)).0) == if s[i] == '\n' {
            match env_entry(strip_cr(scan_lines(s.take(i)).1)) {
                Some(e) => entries_of(scan_lines(s.take(i)).0).push(e),
                None => entries_of(scan_lines(s.take(i)).0),
            }
        } else {
            entries_of(scan_lines(s.take(i)).0)
        },
{
    assert(s.take(i + 1).drop_last() == s.take(i));
    assert(s.take(i + 1).last() == s[i]);
    let done2 = scan_lines(s.take(i + 1)).0;
    if s[i] == '\n' {
        assert(done2.drop_last() == scan_lines(s.take(i)).0);
    }
}

/// The variable set by the line `cs[a..b]` of `content`.
fn line_entry(content: &str, cs: &Vec<char>, a: usize, b: usize) -> (r: Option<(String, String)>)
    requires
        cs@ == content@,
        a <= b <= cs.len(),
    ensures
        match (r, env_entry(cs@.subrange(a as int, b as int))) {
            (Some(p), Some(e)) => (p.0@, p.1@) == e,
            (None, None) => true,
            _ => false,
        },
{
    let ghost line = cs@.subrange(a as int, b as int);
    let mut k = a;
    while k < b && cs[k] != '='
        invariant
            a <= k <= b <= cs.len(),
            forall|j: int| a <= j < k ==> cs@[j] != '=',
        decreases b - k,
    {
        k = k + 1;
    }
    if k == b {
        assert(!(exists|j: int| 0 <= j < line.len() && line[j] == '=')) by {
            if exists|j: int| 0 <= j < line.len() && line[j] == '=' {
                let j = choose|j: int| 0 <= j < line.len() && line[j] == '=';
                assert(cs@[a + j] == '=');
            }
        }
        return None;
    }
    proof {
        lemma_first_index(line, '=', k - a);
        assert(line.take(k - a) == cs@.subrange(a as int, k as int));
        assert(line.skip(k - a + 1) == cs@.subrange(k + 1, b as int));
    }
    let (na, nb) = trim_bounds(cs, a, k);
    let (va, vb) = trim_bounds(cs, k + 1, b);
    let name = String::from_str(content.substring_char(na, nb));
    let value = String::from_str(content.substring_char(va, vb));
    Some((name, value))
}

impl Settings {
    /// The variables that an env file sets, in the order of its lines: each
    /// line with an `=` sets the trimmed text before its first `=` to the
    /// trimmed text after it; other lines set nothing.
    #[verifier::spinoff_prover]
    pub fn env_file_entries(content: &str) -> (r: Vec<(String, String)>)
        ensures
            pair_views(r@) == entries_of(lines(content@)),
    {
        let cs = chars_of(content);
        let mut r: Vec<(String, String)> = Vec::new();
        let mut start: usize = 0;
        let mut i: usize = 0;
        assert(cs@.take(0) == Seq::<char>::empty());
        while i < cs.len()
            invariant
                cs@ == content@,
                start <= i <= cs.len(),
                scan_lines(cs@.take(i as int)).1 == cs@.subrange(start as int, i as int),
                pair_views(r@) == entries_of(scan_lines(cs@.take(i as int)).0),
            decreases cs.len() - i,
        {
            let ghost before = r@;
            proof {
                lemma_scan_step(cs@, i as int);
            }
            if cs[i] == '\n' {
                let end = if i > start && cs[i - 1] == '\r' { i - 1 } else { i };
                assert(cs@.subrange(start as int, end as int) == strip_cr(cs@.subrange(start as int, i as int)));
                match line_entry(content, &cs, start, end) {
                    Some(p) => {
                        r.push(p);
                        assert(pair_views(r@) =~= pair_views(before).push((p.0@, p.1@)));
                    },
                    None => {},
                }
                start = i + 1;
            } else {
                assert(cs@.subrange(start as int, i + 1) == cs@.subrange(start as int, i as int).push(cs@[i as int]));
            }
            i = i + 1;
        }
        assert(cs@.take(cs.len() as int) == cs@);
        if start < cs.len() {
            let ghost before = r@;
            let ghost done = scan_lines(cs@).0;
            let ghost ls = lines(cs@);
            assert(ls.drop_last() == done);
            match line_entry(content, &cs, start, cs.len()) {
                Some(p) => {
                    r.push(p);
                    assert(pair_views(r@) =~= pair_views(before).push((p.0@, p.1@)));
                },
                None => {},
            }
        }
        r
    }
}

/// Whether an optional folder ends with `/`.
pub open spec fn ends_with_slash(folder: Option<String>) -> bool {
    folder matches Some(f) && f@.len() > 0 && f@.last() == '/'
}

/// Settings with every required variable set, a data folder that is
/// absent or does not end with `/`, a nonzero port and a compression level
/// in zstd's range (3 when unset) are accepted, with that port and level;
/// `parse` then keeps the data folder as it was given.
pub proof fn law_parse_accepts_good_settings(v: EnvVars, port: int, level: int)
    requires
        v.db_host is Ok,
        v.db_username is Ok,
        v.db_password is Ok,
        v.db_name is Ok,
        v.drive_creds is Ok,
        !ends_with_slash(v.data_folder),
        v.db_port is Ok,
        parse_u16_spec(v.db_port->Ok_0@) == Ok::<int, IntErrorKind>(port),
        port != 0,
        v.compression_level is None ==> level == 3,
        v.compression_level is Some ==> parse_i32_spec(v.compression_level->0@) == Ok::<int, IntErrorKind>(level),
        -131072 <= level <= 22,
    ensures
        env_outcome(v) == Ok::<(int, int), Seq<char>>((port, level)),
{
}

/// The data folder decides the outcome only by whether it ends with `/`:
/// two sets of values that differ only in data folders that both end, or
/// both do not end, with `/` have the same outcome.
pub proof fn law_folder_matters_only_by_trailing_slash(v: EnvVars, w: EnvVars)
    requires
        v.db_host == w.db_host,
        v.db_username == w.db_username,
        v.db_password == w.db_password,
        v.db_name == w.db_name,
        v.drive_creds == w.drive_creds,
        v.drive_folder_id == w.drive_folder_id,
        v.db_port == w.db_port,
        v.compression_level == w.compression_level,
        ends_with_slash(v.data_folder) == ends_with_slash(w.data_folder),
    ensures
        env_outcome(v) == env_outcome(w),
{
}

/// A line of an env file sets a variable exactly when it holds an `=`.
pub proof fn law_env_entry_iff_equals_sign(line: Seq<char>)
    ensures
        (env_entry(line) is Some) == line.contains('='),
{
}

/// A line `name=value` whose name holds no `=` sets the trimmed name to the
/// trimmed value, whatever the value holds; `name=` sets it to the empty
/// text.
pub proof fn law_env_entry_of_setting(name: Seq<char>, value: Seq<char>)
    requires
        !name.contains('='),
    ensures
        env_entry(name + seq!['='] + value) == Some((trim(name), trim(value))),
        env_entry(name + seq!['=']) == Some((trim(name), Seq::<char>::empty())),
{
    let line = name + seq!['='] + value;
    assert(line[name.len() as int] == '=');
    assert forall|j: int| 0 <= j < name.len() implies line[j] != '=' by {
        assert(line[j] == name[j]);
        if name[j] == '=' {
            assert(name.contains('='));
        }
    }
    lemma_first_index(line, '=', name.len() as int);
    assert(line.take(name.len() as int) =~= name);
    assert(line.skip(name.len() as int + 1) =~= value);
    let short = name + seq!['='];
    assert(short[name.len() as int] == '=');
    assert forall|j: int| 0 <= j < name.len() implies short[j] != '=' by {
        assert(short[j] == name[j]);
        if name[j] == '=' {
            assert(name.contains('='));
        }
    }
    lemma_first_index(short, '=', name.len() as int);
    assert(short.take(name.len() as int) =~= name);
    assert(short.skip(name.len() as int + 1) =~= Seq::<char>::empty());
    assert(trim_start(Seq::<char>::empty()) == Seq::<char>::empty());
    assert(trim_end(Seq::<char>::empty()) == Seq::<char>::empty());
}

/// Every line that holds an `=` gives one entry and no other line gives
/// one: as many entries as such lines.
pub proof fn law_one_entry_per_setting_line(ls: Seq<Seq<char>>)
    ensures
        entries_of(ls).len() == ls.filter(|l: Seq<char>| l.contains('=')).len(),
    decreases ls.len(),
{
    reveal(Seq::filter);
    if ls.len() > 0 {
        law_one_entry_per_setting_line(ls.drop_last());
        law_env_entry_iff_equals_sign(ls.last());
    }
}

} // verus!
