//! The configuration file format: plain text, one `KEY=VALUE` pair per
//! line. Recognized keys are `API_TOKEN` (string), `WORKSPACE_ID` and
//! `PROJECT_ID` (unsigned integers). Unknown keys are ignored; a non-empty
//! line without `=` or a recognized key with an unparsable value is a fatal
//! load error. When a key repeats, the last occurrence wins.

use crate::config::Config;
use crate::errors::{ConfigField, AppError};
use crate::render::{dec_spec, u64_dec};
use vstd::prelude::*;
use vstd::string::{StrSliceExecFns, StringExecFns};

verus! {

/// Index of the first occurrence of `c` in `s`, or `s.len()` when absent.
pub open spec fn char_pos(s: Seq<char>, c: char) -> nat
    decreases s.len(),
{
    if s.len() == 0 {
        0
    } else if s[0] == c {
        0
    } else {
        (1 + char_pos(s.skip(1), c)) as nat
    }
}

pub proof fn lemma_char_pos_is(s: Seq<char>, c: char, i: int)
    requires
        0 <= i <= s.len(),
        forall|j: int| 0 <= j < i ==> s[j] != c,
        i < s.len() ==> s[i] == c,
    ensures
        char_pos(s, c) == i,
    decreases i,
{
    if i > 0 {
        assert(s[0] != c);
        assert(forall|j: int| 0 <= j < i - 1 ==> s.skip(1)[j] == s[j + 1]);
        assert(i - 1 < s.skip(1).len() ==> s.skip(1)[i - 1] == s[i]);
        lemma_char_pos_is(s.skip(1), c, i - 1);
    }
}

/// The text split on `'\n'`; separators are consumed, so a trailing newline
/// produces a final empty line, and an empty text is one empty line.
pub open spec fn split_lines(s: Seq<char>) -> Seq<Seq<char>>
    decreases s.len(),
{
    let p = char_pos(s, '\n');
    if p >= s.len() {
        seq![s]
    } else {
        seq![s.take(p as int)] + split_lines(s.skip(p as int + 1))
    }
}

pub fn split_lines_exec(text: &str) -> (r: Vec<String>)
    ensures
        r.deep_view() == split_lines(text@),
{
    let n = text.unicode_len();
    let mut r: Vec<String> = Vec::new();
    let mut pos: usize = 0;
    proof {
        assert(text@.skip(0) =~= text@);
        assert(r.deep_view() =~~= Seq::<Seq<char>>::empty());
        assert(r.deep_view() + split_lines(text@) =~~= split_lines(text@));
    }
    loop
        invariant_except_break
            split_lines(text@) == r.deep_view() + split_lines(text@.skip(pos as int)),
        invariant
            pos <= n,
            n == text@.len(),
        ensures
            r.deep_view() == split_lines(text@),
        decreases n - pos,
    {
        let mut j: usize = pos;
        while j < n && text.get_char(j) != '\n'
            invariant
                pos <= j <= n,
                n == text@.len(),
                forall|k: int| pos <= k < j ==> text@[k] != '\n',
            decreases n - j,
        {
            j = j + 1;
        }
        let line = text.substring_char(pos, j).to_owned();
        proof {
            let suffix = text@.skip(pos as int);
            assert(forall|k: int| 0 <= k < j - pos ==> suffix[k] == text@[k + pos]);
            assert(j < n ==> suffix[j - pos] == text@[j as int]);
            lemma_char_pos_is(suffix, '\n', j - pos);
            assert(line@ =~= suffix.take(j - pos));
            if j == n {
                assert(suffix.take(j - pos) =~= suffix);
                assert(split_lines(suffix) == seq![suffix]);
                assert(r.deep_view().push(line@) =~~= r.deep_view() + seq![suffix]);
            } else {
                assert(split_lines(suffix) == seq![suffix.take(j - pos)] + split_lines(
                    suffix.skip(j - pos + 1),
                ));
                assert(suffix.skip(j - pos + 1) =~= text@.skip(j + 1));
            }
        }
        let ghost old_deep = r.deep_view();
        r.push(line);
        proof {
            assert(r.deep_view() =~~= old_deep.push(line@));
        }
        if j == n {
            proof {
                assert(r.deep_view() =~~= split_lines(text@));
            }
            break ;
        }
        pos = j + 1;
        proof {
            assert(split_lines(text@) =~~= r.deep_view() + split_lines(text@.skip(pos as int)));
        }
    }
    r
}

/// A decimal digit.
pub open spec fn is_digit(c: char) -> bool {
    48 <= c as u32 <= 57
}

pub open spec fn digit_val(c: char) -> int
    recommends
        is_digit(c),
{
    c as u32 - 48
}

pub open spec fn all_digits(s: Seq<char>) -> bool {
    forall|i: int| 0 <= i < s.len() ==> is_digit(s[i])
}

/// The value of a digit string read in base ten.
pub open spec fn dec_value(s: Seq<char>) -> int
    decreases s.len(),
{
    if s.len() == 0 {
        0
    } else {
        dec_value(s.drop_last()) * 10 + digit_val(s.last())
    }
}

/// A value string parses as a `u64`: non-empty, all digits, and in range.
pub open spec fn num_ok(s: Seq<char>) -> bool {
    s.len() > 0 && all_digits(s) && dec_value(s) <= u64::MAX
}

proof fn lemma_dec_value_nonneg(s: Seq<char>)
    requires
        all_digits(s),
    ensures
        dec_value(s) >= 0,
    decreases s.len(),
{
    if s.len() > 0 {
        assert(forall|i: int| 0 <= i < s.len() - 1 ==> s.drop_last()[i] == s[i]);
        lemma_dec_value_nonneg(s.drop_last());
    }
}

proof fn lemma_dec_value_grows(s: Seq<char>, i: int)
    requires
        all_digits(s),
        0 <= i <= s.len(),
    ensures
        dec_value(s.take(i)) <= dec_value(s),
    decreases s.len() - i,
{
    if i == s.len() {
        assert(s.take(i) =~= s);
    } else {
        assert(s.take(i + 1).drop_last() =~= s.take(i));
        assert(forall|k: int| 0 <= k < i ==> s.take(i)[k] == s[k]);
        lemma_dec_value_nonneg(s.take(i));
        assert(is_digit(s[i]));
        assert(dec_value(s.take(i + 1)) == dec_value(s.take(i)) * 10 + digit_val(s.take(i + 1).last()));
        lemma_dec_value_grows(s, i + 1);
    }
}

/// Parses a non-empty all-digit string as a `u64`; anything else is
/// rejected, including values beyond the `u64` range.
pub fn parse_u64(s: &str) -> (r: Option<u64>)
    ensures
        r is Some <==> num_ok(s@),
        r matches Some(v) ==> v as int == dec_value(s@),
{
    let n = s.unicode_len();
    if n == 0 {
        return None;
    }
    let mut v: u64 = 0;
    let mut i: usize = 0;
    while i < n
        invariant
            0 <= i <= n,
            n == s@.len(),
            all_digits(s@.take(i as int)),
            v as int == dec_value(s@.take(i as int)),
        decreases n - i,
    {
        let c = s.get_char(i);
        let cu = c as u32;
        if cu < 48 || cu > 57 {
            proof {
                assert(!is_digit(s@[i as int]));
            }
            return None;
        }
        let d: u64 = (cu - 48) as u64;
        proof {
            assert(s@.take(i as int + 1).drop_last() =~= s@.take(i as int));
            assert(forall|k: int|
                0 <= k < i + 1 ==> s@.take(i as int + 1)[k] == s@[k]);
        }
        let next = match v.checked_mul(10) {
            Some(m) => m.checked_add(d),
            None => None,
        };
        match next {
            Some(nv) => {
                v = nv;
            },
            None => {
                proof {
                    if all_digits(s@) {
                        lemma_dec_value_grows(s@, i as int + 1);
                    }
                }
                return None;
            },
        }
        i = i + 1;
    }
    proof {
        assert(s@.take(n as int) =~= s@);
    }
    Some(v)
}

/// What stands before the first `=` of a line.
pub open spec fn line_key(line: Seq<char>) -> Seq<char> {
    line.take(char_pos(line, '=') as int)
}

/// What stands after the first `=` of a line, later `=` included.
pub open spec fn line_value(line: Seq<char>) -> Seq<char> {
    line.skip(char_pos(line, '=') as int + 1)
}

/// A line is well-formed and its recognized value parses.
pub open spec fn line_err(line: Seq<char>) -> Option<AppError> {
    if line.len() == 0 {
        None
    } else if char_pos(line, '=') >= line.len() {
        Some(AppError::ConfigSyntax)
    } else if line_key(line) == "WORKSPACE_ID"@ && !num_ok(line_value(line)) {
        Some(AppError::ConfigParse(ConfigField::WorkspaceId))
    } else if line_key(line) == "PROJECT_ID"@ && !num_ok(line_value(line)) {
        Some(AppError::ConfigParse(ConfigField::ProjectId))
    } else {
        None
    }
}

/// The first error among the lines, front to back.
pub open spec fn lines_err(lines: Seq<Seq<char>>) -> Option<AppError>
    decreases lines.len(),
{
    if lines.len() == 0 {
        None
    } else if line_err(lines[0]) is Some {
        line_err(lines[0])
    } else {
        lines_err(lines.skip(1))
    }
}

proof fn lemma_lines_err_skip(lines: Seq<Seq<char>>, i: int)
    requires
        0 <= i <= lines.len(),
        forall|j: int| 0 <= j < i ==> line_err(lines[j]) is None,
    ensures
        lines_err(lines) == lines_err(lines.skip(i)),
    decreases i,
{
    if i == 0 {
        assert(lines.skip(0) =~= lines);
    } else {
        assert(line_err(lines[0]) is None);
        assert(forall|j: int| 0 <= j < i - 1 ==> lines.skip(1)[j] == lines[j + 1]);
        lemma_lines_err_skip(lines.skip(1), i - 1);
        assert(lines.skip(1).skip(i - 1) =~= lines.skip(i));
    }
}

/// Whether a line binds the given key.
pub open spec fn line_binds(line: Seq<char>, key: Seq<char>) -> bool {
    line.len() > 0 && char_pos(line, '=') < line.len() && line_key(line) == key
}

/// The credential the lines assign, last occurrence winning.
pub open spec fn token_of(lines: Seq<Seq<char>>) -> Option<Seq<char>>
    decreases lines.len(),
{
    if lines.len() == 0 {
        None
    } else if line_binds(lines.last(), "API_TOKEN"@) {
        Some(line_value(lines.last()))
    } else {
        token_of(lines.drop_last())
    }
}

/// The numeric field the lines assign under `key`, last occurrence winning.
pub open spec fn num_field_of(lines: Seq<Seq<char>>, key: Seq<char>) -> Option<u64>
    decreases lines.len(),
{
    if lines.len() == 0 {
        None
    } else if line_binds(lines.last(), key) && num_ok(line_value(lines.last())) {
        Some(dec_value(line_value(lines.last())) as u64)
    } else {
        num_field_of(lines.drop_last(), key)
    }
}

fn str_eq(a: &str, b: &str) -> (r: bool)
    ensures
        r == (a@ == b@),
{
    let sa = a.to_owned();
    let sb = b.to_owned();
    sa == sb
}

/// Parses one configuration layer. Absent keys stay absent; the project
/// table is never read from a file.
pub fn parse_config(text: &str) -> (r: Result<Config, AppError>)
    ensures
        r is Ok <==> lines_err(split_lines(text@)) is None,
        r matches Ok(c) ==> {
            &&& c.api_token.deep_view() == token_of(split_lines(text@))
            &&& c.workspace_id == num_field_of(split_lines(text@), "WORKSPACE_ID"@)
            &&& c.project_id == num_field_of(split_lines(text@), "PROJECT_ID"@)
            &&& c.projects is None
        },
        r matches Err(e) ==> lines_err(split_lines(text@)) == Some(e),
{
    let lines = split_lines_exec(text);
    let ghost gl = split_lines(text@);
    let mut cfg = Config { api_token: None, workspace_id: None, project_id: None, projects: None };
    let n = lines.len();
    let mut i: usize = 0;
    while i < n
        invariant
            0 <= i <= n,
            n == lines@.len(),
            lines.deep_view() == gl,
            gl == split_lines(text@),
            forall|j: int| 0 <= j < i ==> line_err(gl[j]) is None,
            cfg.api_token.deep_view() == token_of(gl.take(i as int)),
            cfg.workspace_id == num_field_of(gl.take(i as int), "WORKSPACE_ID"@),
            cfg.project_id == num_field_of(gl.take(i as int), "PROJECT_ID"@),
            cfg.projects is None,
        decreases n - i,
    {
        let line: &String = &lines[i];
        proof {
            assert(lines.deep_view()[i as int] == lines@[i as int]@);
            assert(line@ == gl[i as int]);
            assert(gl.take(i as int + 1).drop_last() =~= gl.take(i as int));
            assert(gl.take(i as int + 1).last() == gl[i as int]);
        }
        let ls = line.as_str();
        let ll = ls.unicode_len();
        if ll > 0 {
            let mut j: usize = 0;
            while j < ll && ls.get_char(j) != '='
                invariant
                    0 <= j <= ll,
                    ll == ls@.len(),
                    forall|k: int| 0 <= k < j ==> ls@[k] != '=',
                decreases ll - j,
            {
                j = j + 1;
            }
            proof {
                lemma_char_pos_is(ls@, '=', j as int);
            }
            if j == ll {
                proof {
                    lemma_lines_err_skip(gl, i as int);
                    assert(gl.skip(i as int)[0] == gl[i as int]);
                }
                return Err(AppError::ConfigSyntax);
            }
            let key = ls.substring_char(0, j);
            let value = ls.substring_char(j + 1, ll);
            proof {
                assert(key@ =~= line_key(gl[i as int]));
                assert(value@ =~= line_value(gl[i as int]));
                reveal_strlit("API_TOKEN");
                reveal_strlit("WORKSPACE_ID");
                reveal_strlit("PROJECT_ID");
                assert("API_TOKEN"@.len() == 9);
                assert("WORKSPACE_ID"@.len() == 12);
                assert("PROJECT_ID"@.len() == 10);
            }
            if str_eq(key, "API_TOKEN") {
                cfg.api_token = Some(value.to_owned());
            } else if str_eq(key, "WORKSPACE_ID") {
                match parse_u64(value) {
                    Some(v) => {
                        cfg.workspace_id = Some(v);
                    },
                    None => {
                        proof {
                            lemma_lines_err_skip(gl, i as int);
                            assert(gl.skip(i as int)[0] == gl[i as int]);
                        }
                        return Err(AppError::ConfigParse(ConfigField::WorkspaceId));
                    },
                }
            } else if str_eq(key, "PROJECT_ID") {
                match parse_u64(value) {
                    Some(v) => {
                        cfg.project_id = Some(v);
                    },
                    None => {
                        proof {
                            lemma_lines_err_skip(gl, i as int);
                            assert(gl.skip(i as int)[0] == gl[i as int]);
                        }
                        return Err(AppError::ConfigParse(ConfigField::ProjectId));
                    },
                }
            }
        }
        i = i + 1;
    }
    proof {
        assert(gl.take(n as int) =~= gl);
        lemma_lines_err_skip(gl, n as int);
        assert(gl.skip(n as int) =~= Seq::<Seq<char>>::empty());
    }
    Ok(cfg)
}

/// The text a configuration layer is stored as: one line per present field,
/// in a fixed order, each ended by a newline.
pub open spec fn config_text_spec(
    token: Option<Seq<char>>,
    workspace: Option<u64>,
    project: Option<u64>,
) -> Seq<char> {
    (match token {
        Some(t) => "API_TOKEN="@ + t + "\n"@,
        None => Seq::<char>::empty(),
    }) + (match workspace {
        Some(w) => "WORKSPACE_ID="@ + dec_spec(w as nat) + "\n"@,
        None => Seq::<char>::empty(),
    }) + (match project {
        Some(p) => "PROJECT_ID="@ + dec_spec(p as nat) + "\n"@,
        None => Seq::<char>::empty(),
    })
}

/// Serializes one configuration layer; the project table is not persisted.
pub fn render_config(c: &Config) -> (r: String)
    ensures
        r@ == config_text_spec(c.api_token.deep_view(), c.workspace_id, c.project_id),
{
    let mut s = String::new();
    match &c.api_token {
        Some(t) => {
            s.append("API_TOKEN=");
            s.append(t.as_str());
            s.append("\n");
        },
        None => {},
    }
    match c.workspace_id {
        Some(w) => {
            s.append("WORKSPACE_ID=");
            let d = u64_dec(w);
            s.append(d.as_str());
            s.append("\n");
        },
        None => {},
    }
    match c.project_id {
        Some(p) => {
            s.append("PROJECT_ID=");
            let d = u64_dec(p);
            s.append(d.as_str());
            s.append("\n");
        },
        None => {},
    }
    proof {
        assert(s@ =~= config_text_spec(c.api_token.deep_view(), c.workspace_id, c.project_id));
    }
    s
}

} // verus!
