//! The persisted configuration: its data model, its file format, and the
//! rules for reading it (first-run bootstrap, repair of an empty data
//! directory).
use vstd::prelude::*;

use crate::errors::StoreError;
use crate::json::{
    digit_of, escape_string, lemma_decimal_starts_with_digit, lemma_escape_plain,
    lemma_parse_decimal_run, lemma_parse_digits_ge, lemma_parse_escaped_string,
    lemma_parse_string_body_bounds, lemma_skip_value_advances, lemma_skip_ws_bounds, parse_number,
    parse_string_body, skip_value, skip_ws, spec_escape, spec_parse_digits, spec_parse_number,
    lemma_decimal_no_leading_zero, spec_leading_zero, spec_parse_string_body, spec_skip_value,
    spec_skip_ws, ten_pow,
};
use crate::text::{join_path, push_decimal, spec_decimal, str_eq};
use crate::{default_backup_count, DEFAULT_BACKUP_COUNT};

verus! {

use vstd::string::StrSliceExecFns;
use vstd::string::StringExecFns;

/// The persisted configuration: where the data lives, and how many
/// backups are kept.
#[derive(Clone, Debug)]
pub struct AppConfig {
    pub data_dir: String,
    pub backup_count: usize,
}

/// The mathematical reading of a configuration.
#[verifier::ext_equal]
pub ghost struct AbsConfig {
    pub data_dir: Seq<char>,
    pub backup_count: nat,
}

impl View for AppConfig {
    type V = AbsConfig;

    open spec fn view(&self) -> AbsConfig {
        AbsConfig { data_dir: self.data_dir@, backup_count: self.backup_count as nat }
    }
}

impl Default for AppConfig {
    /// An empty data directory (repaired on load) and the stock retention.
    fn default() -> (r: AppConfig)
        ensures
            r@.data_dir.len() == 0,
            r@.backup_count == DEFAULT_BACKUP_COUNT,
    {
        AppConfig { data_dir: String::new(), backup_count: default_backup_count() }
    }
}

/// The configuration file's path inside the platform's config directory.
pub fn config_file_path(config_dir: &str) -> (r: String)
    ensures
        r@ == config_dir@ + "/"@ + "app_config.json"@,
{
    join_path(config_dir, "app_config.json")
}

/// The data file's path inside the active data directory.
pub fn data_file_path(data_dir: &str) -> (r: String)
    ensures
        r@ == data_dir@ + "/"@ + "cmd_notebook.json"@,
{
    join_path(data_dir, "cmd_notebook.json")
}

/// The backup directory's path inside the active data directory.
pub fn backup_dir_path(data_dir: &str) -> (r: String)
    ensures
        r@ == data_dir@ + "/"@ + ".backup"@,
{
    join_path(data_dir, ".backup")
}

/// The sibling temporary path used by the atomic write protocol.
pub fn tmp_path(path: &str) -> (r: String)
    ensures
        r@ == path@ + ".tmp"@,
{
    let mut s = path.to_owned();
    s.append(".tmp");
    s
}

/// The exact text written for a configuration.
pub open spec fn spec_render_config(c: AbsConfig) -> Seq<char> {
    "{\n  \"data_dir\": \""@ + spec_escape(c.data_dir) + "\",\n  \"backup_count\": "@
        + spec_decimal(c.backup_count) + "\n}"@
}

/// Renders a configuration as the pretty two-field object it is stored as.
pub fn render_config(c: &AppConfig) -> (r: String)
    ensures
        r@ == spec_render_config(c@),
{
    let mut out = "{\n  \"data_dir\": \"".to_owned();
    let esc = escape_string(c.data_dir.as_str());
    out.append(esc.as_str());
    out.append("\",\n  \"backup_count\": ");
    push_decimal(&mut out, c.backup_count);
    out.append("\n}");
    out
}

pub open spec fn opt_str_view(o: Option<String>) -> Option<Seq<char>> {
    match o {
        Option::None => None,
        Option::Some(s) => Some(s@),
    }
}

pub open spec fn opt_count_view(o: Option<usize>) -> Option<nat> {
    match o {
        Option::None => None,
        Option::Some(v) => Some(v as nat),
    }
}

/// Reads one `"key": value` pair at `i`, folding it into the fields read
/// so far. A recognised key seen twice, or a value of the wrong shape,
/// refuses the file; an unrecognised key is read and ignored, as long as
/// its value is a scalar.
pub open spec fn spec_parse_pair(
    s: Seq<char>,
    i: int,
    dd: Option<Seq<char>>,
    bc: Option<nat>,
) -> Option<(Option<Seq<char>>, Option<nat>, int)> {
    if !(0 <= i < s.len() && s[i] == '"') {
        None
    } else {
        match spec_parse_string_body(s, i + 1) {
            None => None,
            Some(kp) => {
                let j2 = spec_skip_ws(s, kp.1);
                if !(j2 < s.len() && s[j2] == ':') {
                    None
                } else {
                    let j3 = spec_skip_ws(s, j2 + 1);
                    if kp.0 == "data_dir"@ {
                        if dd is Some {
                            None
                        } else if j3 < s.len() && s[j3] == '"' {
                            match spec_parse_string_body(s, j3 + 1) {
                                None => None,
                                Some(vp) => Some((Some(vp.0), bc, vp.1)),
                            }
                        } else {
                            None
                        }
                    } else if kp.0 == "backup_count"@ {
                        if bc is Some {
                            None
                        } else {
                            match spec_parse_number(s, j3) {
                                None => None,
                                Some(np) => if np.0 <= usize::MAX {
                                    Some((dd, Some(np.0), np.1))
                                } else {
                                    None
                                },
                            }
                        }
                    } else {
                        match spec_skip_value(s, j3) {
                            None => None,
                            Some(j4) => Some((dd, bc, j4)),
                        }
                    }
                }
            },
        }
    }
}

/// A pair that was read always ends past where it began, within the text.
pub proof fn lemma_parse_pair_advances(
    s: Seq<char>,
    i: int,
    dd: Option<Seq<char>>,
    bc: Option<nat>,
)
    requires
        0 <= i <= s.len(),
        spec_parse_pair(s, i, dd, bc) is Some,
    ensures
        i < spec_parse_pair(s, i, dd, bc)->Some_0.2 <= s.len(),
{
    let kp = spec_parse_string_body(s, i + 1)->Some_0;
    lemma_parse_string_body_bounds(s, i + 1);
    lemma_skip_ws_bounds(s, kp.1);
    let j2 = spec_skip_ws(s, kp.1);
    lemma_skip_ws_bounds(s, j2 + 1);
    let j3 = spec_skip_ws(s, j2 + 1);
    if kp.0 == "data_dir"@ {
        lemma_parse_string_body_bounds(s, j3 + 1);
    } else if kp.0 == "backup_count"@ {
        lemma_parse_digits_ge(s, j3, 0);
    } else {
        lemma_skip_value_advances(s, j3);
    }
}

/// The pairs of the object from `i` to its closing brace, folded into
/// the two fields; recognised keys must not repeat, all others are
/// skipped over.
pub open spec fn spec_parse_pairs(
    s: Seq<char>,
    i: int,
    dd: Option<Seq<char>>,
    bc: Option<nat>,
) -> Option<(Option<Seq<char>>, Option<nat>, int)>
    decreases s.len() - i when 0 <= i <= s.len()
    via spec_parse_pairs_decreases
{
    match spec_parse_pair(s, i, dd, bc) {
        None => None,
        Some(p) => {
            let j = spec_skip_ws(s, p.2);
            if j < s.len() && s[j] == ',' {
                spec_parse_pairs(s, spec_skip_ws(s, j + 1), p.0, p.1)
            } else if j < s.len() && s[j] == '}' {
                Some((p.0, p.1, j + 1))
            } else {
                None
            }
        },
    }
}

#[via_fn]
proof fn spec_parse_pairs_decreases(s: Seq<char>, i: int, dd: Option<Seq<char>>, bc: Option<nat>) {
    if spec_parse_pair(s, i, dd, bc) is Some {
        let p = spec_parse_pair(s, i, dd, bc)->Some_0;
        lemma_parse_pair_advances(s, i, dd, bc);
        lemma_skip_ws_bounds(s, p.2);
        let j = spec_skip_ws(s, p.2);
        if j < s.len() && s[j] == ',' {
            lemma_skip_ws_bounds(s, j + 1);
        }
    }
}

/// Closes the file: only whitespace may follow, `data_dir` must have been
/// seen, and a missing `backup_count` falls back to the stock retention.
pub open spec fn spec_finish_config(
    s: Seq<char>,
    i: int,
    dd: Option<Seq<char>>,
    bc: Option<nat>,
) -> Option<AbsConfig> {
    if spec_skip_ws(s, i) == s.len() {
        match dd {
            None => None,
            Some(d) => Some(
                AbsConfig {
                    data_dir: d,
                    backup_count: match bc {
                        None => DEFAULT_BACKUP_COUNT as nat,
                        Some(v) => v,
                    },
                },
            ),
        }
    } else {
        None
    }
}

/// The whole file: one object holding `data_dir` and optionally
/// `backup_count`, in either order, with nothing but whitespace around
/// the tokens. Unrecognised keys with scalar values are ignored.
pub open spec fn spec_parse_config(s: Seq<char>) -> Option<AbsConfig> {
    let i0 = spec_skip_ws(s, 0);
    if !(i0 < s.len() && s[i0] == '{') {
        None
    } else {
        let i1 = spec_skip_ws(s, i0 + 1);
        match spec_parse_pairs(s, i1, None, None) {
            None => None,
            Some(p) => spec_finish_config(s, p.2, p.0, p.1),
        }
    }
}

fn parse_pair(s: &str, i: usize, dd: Option<String>, bc: Option<usize>) -> (r: Option<
    (Option<String>, Option<usize>, usize),
>)
    requires
        i <= s@.len(),
    ensures
        ({
            let sp = spec_parse_pair(s@, i as int, opt_str_view(dd), opt_count_view(bc));
            match r {
                None => sp is None,
                Some(t) => sp is Some && opt_str_view(t.0) == sp->Some_0.0 && opt_count_view(t.1)
                    == sp->Some_0.1 && t.2 == sp->Some_0.2 && t.2 <= s@.len(),
            }
        }),
{
    let n = s.unicode_len();
    if i >= n {
        return None;
    }
    let c = s.get_char(i);
    if c != '"' {
        return None;
    }
    match parse_string_body(s, i + 1) {
        None => None,
        Some((key, j1)) => {
            proof {
                lemma_parse_string_body_bounds(s@, i + 1);
            }
            let j2 = skip_ws(s, j1);
            if j2 >= n {
                return None;
            }
            let c2 = s.get_char(j2);
            if c2 != ':' {
                return None;
            }
            let j3 = skip_ws(s, j2 + 1);
            if str_eq(key.as_str(), "data_dir") {
                if dd.is_some() {
                    return None;
                }
                if j3 < n {
                    let c3 = s.get_char(j3);
                    if c3 == '"' {
                        match parse_string_body(s, j3 + 1) {
                            None => None,
                            Some((val, j4)) => {
                                proof {
                                    lemma_parse_string_body_bounds(s@, j3 + 1);
                                }
                                Some((Some(val), bc, j4))
                            },
                        }
                    } else {
                        None
                    }
                } else {
                    None
                }
            } else if str_eq(key.as_str(), "backup_count") {
                if bc.is_some() {
                    return None;
                }
                match parse_number(s, j3) {
                    None => None,
                    Some((v, j4)) => {
                        proof {
                            lemma_parse_digits_ge(s@, j3 as int, 0);
                        }
                        Some((dd, Some(v), j4))
                    },
                }
            } else {
                match skip_value(s, j3) {
                    None => None,
                    Some(j4) => Some((dd, bc, j4)),
                }
            }
        },
    }
}

fn parse_pairs(s: &str, i: usize, dd: Option<String>, bc: Option<usize>) -> (r: Option<
    (Option<String>, Option<usize>, usize),
>)
    requires
        i <= s@.len(),
    ensures
        ({
            let sp = spec_parse_pairs(s@, i as int, opt_str_view(dd), opt_count_view(bc));
            match r {
                None => sp is None,
                Some(t) => sp is Some && opt_str_view(t.0) == sp->Some_0.0 && opt_count_view(t.1)
                    == sp->Some_0.1 && t.2 == sp->Some_0.2 && t.2 <= s@.len(),
            }
        }),
    decreases s@.len() - i,
{
    let n = s.unicode_len();
    let ghost sdd = opt_str_view(dd);
    let ghost sbc = opt_count_view(bc);
    match parse_pair(s, i, dd, bc) {
        None => None,
        Some((dd2, bc2, p)) => {
            proof {
                lemma_parse_pair_advances(s@, i as int, sdd, sbc);
            }
            let j = skip_ws(s, p);
            if j < n {
                let c = s.get_char(j);
                if c == ',' {
                    let k = skip_ws(s, j + 1);
                    parse_pairs(s, k, dd2, bc2)
                } else if c == '}' {
                    Some((dd2, bc2, j + 1))
                } else {
                    None
                }
            } else {
                None
            }
        },
    }
}

fn finish_config(s: &str, i: usize, dd: Option<String>, bc: Option<usize>) -> (r: Option<
    AppConfig,
>)
    requires
        i <= s@.len(),
    ensures
        match spec_finish_config(s@, i as int, opt_str_view(dd), opt_count_view(bc)) {
            None => r is None,
            Some(a) => r is Some && r->Some_0@ == a,
        },
{
    let n = s.unicode_len();
    let e = skip_ws(s, i);
    if e != n {
        return None;
    }
    match dd {
        None => None,
        Some(d) => {
            let count = match bc {
                None => default_backup_count(),
                Some(v) => v,
            };
            let out = AppConfig { data_dir: d, backup_count: count };
            proof {
                assert(out@ =~= spec_finish_config(
                    s@,
                    i as int,
                    opt_str_view(Some(out.data_dir)),
                    opt_count_view(bc),
                )->Some_0);
            }
            Some(out)
        },
    }
}

/// Reads a configuration file's text. Mirrors `spec_parse_config` exactly.
pub fn parse_config(s: &str) -> (r: Option<AppConfig>)
    ensures
        match spec_parse_config(s@) {
            None => r is None,
            Some(a) => r is Some && r->Some_0@ == a,
        },
{
    let n = s.unicode_len();
    let i0 = skip_ws(s, 0);
    if i0 >= n {
        return None;
    }
    let c0 = s.get_char(i0);
    if c0 != '{' {
        return None;
    }
    let i1 = skip_ws(s, i0 + 1);
    match parse_pairs(s, i1, None, None) {
        None => None,
        Some((dd, bc, p)) => finish_config(s, p, dd, bc),
    }
}

/// Reading back what was rendered recovers the configuration exactly:
/// the file format loses nothing, whatever path the data directory
/// holds.
pub proof fn lemma_render_parse_round_trip(c: AbsConfig)
    requires
        c.backup_count <= usize::MAX,
    ensures
        spec_parse_config(spec_render_config(c)) == Some(c),
{
    reveal_strlit("{\n  \"data_dir\": \"");
    reveal_strlit("\",\n  \"backup_count\": ");
    reveal_strlit("\n}");
    reveal_strlit("data_dir");
    reveal_strlit("backup_count");
    let l1 = "{\n  \"data_dir\": \""@;
    let l2 = "\",\n  \"backup_count\": "@;
    let l3 = "\n}"@;
    let e = spec_escape(c.data_dir);
    let d = spec_decimal(c.backup_count);
    let ee = e.len() as int;
    let dd = d.len() as int;
    let s = spec_render_config(c);
    assert(l1.len() == 17);
    assert(l2.len() == 21);
    assert(l3.len() == 2);
    assert(dd >= 1);
    let b = 17 + ee;
    let t1 = l1 + e;
    let t2 = t1 + l2;
    let t3 = t2 + d;
    assert(s == t3 + l3);
    assert(s.len() == b + 21 + dd + 2);
    assert forall|idx: int| 0 <= idx < 17 implies s[idx] == l1[idx] by {
        assert(t1[idx] == l1[idx]);
        assert(t2[idx] == t1[idx]);
        assert(t3[idx] == t2[idx]);
        assert(s[idx] == t3[idx]);
    }
    assert forall|idx: int| 17 <= idx < b implies s[idx] == e[idx - 17] by {
        assert(t1[idx] == e[idx - 17]);
        assert(t2[idx] == t1[idx]);
        assert(t3[idx] == t2[idx]);
        assert(s[idx] == t3[idx]);
    }
    assert forall|idx: int| b <= idx < b + 21 implies s[idx] == l2[idx - b] by {
        assert(t2[idx] == l2[idx - b]);
        assert(t3[idx] == t2[idx]);
        assert(s[idx] == t3[idx]);
    }
    assert forall|idx: int| b + 21 <= idx < b + 21 + dd implies s[idx] == d[idx - b - 21] by {
        assert(t3[idx] == d[idx - b - 21]);
        assert(s[idx] == t3[idx]);
    }
    assert forall|idx: int| b + 21 + dd <= idx < s.len() implies s[idx] == l3[idx - b - 21
        - dd] by {
        assert(s[idx] == l3[idx - b - 21 - dd]);
    }
    // opening brace, then whitespace up to the first key
    assert(spec_skip_ws(s, 0) == 0);
    assert(s[0] == '{');
    assert(spec_skip_ws(s, 1) == spec_skip_ws(s, 2));
    assert(spec_skip_ws(s, 2) == spec_skip_ws(s, 3));
    assert(spec_skip_ws(s, 3) == spec_skip_ws(s, 4));
    assert(spec_skip_ws(s, 4) == 4);
    // the data_dir key
    assert(s[4] == '"');
    assert forall|j: int| 0 <= j < 8 implies "data_dir"@[j] != '"' && "data_dir"@[j]
        != '\\' by {}
    lemma_escape_plain("data_dir"@);
    assert forall|j: int| 0 <= j < 8 implies s.subrange(5, 13)[j] == "data_dir"@[j] by {
        assert(s.subrange(5, 13)[j] == s[5 + j]);
        assert(s[5 + j] == l1[5 + j]);
        assert(l1[5 + j] == "data_dir"@[j]);
    }
    assert(s.subrange(5, 13) =~= spec_escape("data_dir"@));
    assert(s[13] == '"');
    lemma_parse_escaped_string(s, 5, "data_dir"@);
    assert(spec_parse_string_body(s, 5) == Some(("data_dir"@, 14int)));
    // colon, space, and the quoted value
    assert(spec_skip_ws(s, 14) == 14);
    assert(s[14] == ':');
    assert(spec_skip_ws(s, 15) == spec_skip_ws(s, 16));
    assert(spec_skip_ws(s, 16) == 16);
    assert(s[16] == '"');
    assert forall|j: int| 0 <= j < ee implies s.subrange(17, 17 + ee)[j] == e[j] by {
        assert(s.subrange(17, 17 + ee)[j] == s[17 + j]);
    }
    assert(s.subrange(17, 17 + ee) =~= e);
    assert(s[b] == l2[0]);
    assert(s[b] == '"');
    lemma_parse_escaped_string(s, 17, c.data_dir);
    assert(spec_parse_string_body(s, 17) == Some((c.data_dir, b + 1)));
    assert(spec_parse_pair(s, 4, None, None) == Some(
        (Some(c.data_dir), None::<nat>, b + 1),
    ));
    // comma, whitespace, and the backup_count key
    assert(s[b + 1] == ',');
    assert(spec_skip_ws(s, b + 1) == b + 1);
    assert(spec_skip_ws(s, b + 2) == spec_skip_ws(s, b + 3));
    assert(spec_skip_ws(s, b + 3) == spec_skip_ws(s, b + 4));
    assert(spec_skip_ws(s, b + 4) == spec_skip_ws(s, b + 5));
    assert(s[b + 5] == '"');
    assert(spec_skip_ws(s, b + 5) == b + 5);
    assert forall|j: int| 0 <= j < 12 implies "backup_count"@[j] != '"' && "backup_count"@[j]
        != '\\' by {}
    lemma_escape_plain("backup_count"@);
    assert forall|j: int| 0 <= j < 12 implies s.subrange(b + 6, b + 18)[j]
        == "backup_count"@.index(j) by {
        assert(s.subrange(b + 6, b + 18)[j] == s[b + 6 + j]);
        assert(s[b + 6 + j] == l2[6 + j]);
        assert(l2[6 + j] == "backup_count"@[j]);
    }
    assert(s.subrange(b + 6, b + 18) =~= spec_escape("backup_count"@));
    assert(s[b + 18] == '"');
    lemma_parse_escaped_string(s, b + 6, "backup_count"@);
    assert(spec_parse_string_body(s, b + 6) == Some(("backup_count"@, b + 19int)));
    assert("backup_count"@.len() != "data_dir"@.len());
    assert("backup_count"@ != "data_dir"@);
    // colon, space, and the number
    assert(s[b + 19] == ':');
    assert(spec_skip_ws(s, b + 19) == b + 19);
    assert(spec_skip_ws(s, b + 20) == spec_skip_ws(s, b + 21));
    assert(s[b + 21] == d[0]);
    lemma_decimal_starts_with_digit(c.backup_count);
    assert(digit_of(s[b + 21]) is Some);
    assert(spec_skip_ws(s, b + 21) == b + 21);
    assert forall|j: int| 0 <= j < dd implies s.subrange(b + 21, b + 21 + dd)[j] == d[j] by {
        assert(s.subrange(b + 21, b + 21 + dd)[j] == s[b + 21 + j]);
    }
    assert(s.subrange(b + 21, b + 21 + dd) =~= d);
    lemma_parse_decimal_run(s, b + 21, 0, c.backup_count);
    let end2 = b + 21 + dd;
    assert(s[end2] == '\n');
    assert(digit_of('\n') is None);
    assert(spec_parse_digits(s, end2, c.backup_count) == (c.backup_count, end2));
    assert(0 * ten_pow(d.len()) + c.backup_count == c.backup_count);
    assert(spec_parse_digits(s, b + 21, 0) == (c.backup_count, end2));
    if dd > 1 {
        assert(c.backup_count >= 1) by {
            if c.backup_count == 0 {
                assert(spec_decimal(0) == seq![crate::text::digit_char(0)]);
            }
        }
        lemma_decimal_no_leading_zero(c.backup_count);
        assert(s[b + 21] != '0');
    } else {
        assert(b + 22 == end2);
        assert(s[b + 22] == '\n');
        assert(digit_of(s[b + 22]) is None);
    }
    assert(!spec_leading_zero(s, b + 21));
    assert(spec_parse_number(s, b + 21) == Some((c.backup_count, end2)));
    assert(spec_parse_pair(s, b + 5, Some(c.data_dir), None) == Some(
        (Some(c.data_dir), Some(c.backup_count), end2),
    ));
    // closing brace and the end of the file
    assert(spec_skip_ws(s, end2) == spec_skip_ws(s, end2 + 1));
    assert(s[end2 + 1] == '}');
    assert(spec_skip_ws(s, end2 + 1) == end2 + 1);
    assert(end2 + 2 == s.len());
    assert(spec_skip_ws(s, s.len() as int) == s.len());
    // the pair list: the data_dir pair, a comma, the backup_count pair
    assert(spec_parse_pairs(s, b + 5, Some(c.data_dir), None) == Some(
        (Some(c.data_dir), Some(c.backup_count), end2 + 2),
    ));
    assert(spec_parse_pairs(s, 4, None, None) == Some(
        (Some(c.data_dir), Some(c.backup_count), end2 + 2),
    ));
    assert(spec_finish_config(s, end2 + 2, Some(c.data_dir), Some(c.backup_count)) == Some(
        AbsConfig { data_dir: c.data_dir, backup_count: c.backup_count },
    ));
    assert((AbsConfig { data_dir: c.data_dir, backup_count: c.backup_count }) =~= c);
}

/// How a configuration read from the given data repairs an empty data
/// directory: the platform default takes its place, all else stands.
pub open spec fn spec_repair(a: AbsConfig, default_dir: Seq<char>) -> AbsConfig {
    if a.data_dir.len() == 0 {
        AbsConfig { data_dir: default_dir, backup_count: a.backup_count }
    } else {
        a
    }
}

/// Interprets what was found at the configuration path. `content` is the
/// file's text, or `None` if there is no file. The `bool` says whether
/// the returned configuration is a first-run default that must be
/// persisted immediately.
pub fn load_config(content: Option<&str>, default_dir: &str) -> (r: Result<
    (AppConfig, bool),
    StoreError,
>)
    ensures
        match content {
            None => r is Ok && r->Ok_0.1 == true && r->Ok_0.0@ == (AbsConfig {
                data_dir: default_dir@,
                backup_count: DEFAULT_BACKUP_COUNT as nat,
            }),
            Some(s) => match spec_parse_config(s@) {
                None => r is Err && r->Err_0 == StoreError::ConfigCorrupt,
                Some(a) => r is Ok && r->Ok_0.1 == false && r->Ok_0.0@ == spec_repair(
                    a,
                    default_dir@,
                ),
            },
        },
{
    match content {
        None => {
            let cfg = AppConfig {
                data_dir: default_dir.to_owned(),
                backup_count: default_backup_count(),
            };
            proof {
                assert(cfg@ =~= AbsConfig {
                    data_dir: default_dir@,
                    backup_count: DEFAULT_BACKUP_COUNT as nat,
                });
            }
            Ok((cfg, true))
        },
        Some(s) => match parse_config(s) {
            None => Err(StoreError::ConfigCorrupt),
            Some(cfg) => {
                if cfg.data_dir.as_str().is_empty() {
                    let repaired = AppConfig {
                        data_dir: default_dir.to_owned(),
                        backup_count: cfg.backup_count,
                    };
                    Ok((repaired, false))
                } else {
                    Ok((cfg, false))
                }
            },
        },
    }
}

} // verus!
