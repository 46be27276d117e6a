//! The statement syntax of MAD lattice files.
//!
//! A file is a sequence of statements separated by `;` (see `mad::split_statements`), with
//! `!` comments removed. A statement is one of
//!
//! - a definition `label: KIND`, optionally followed by `, NAME=value, ...` or by
//!   `=(label, label, ...)`;
//! - a command: any statement whose first word is not followed by `:` (such as
//!   `BEAM, SEQUENCE=RING`); commands are accepted and carry nothing.
//!
//! Words start with an ASCII letter or `_` and go on with ASCII letters, digits, `_` and `.`.
//! A value is a number (`-1.5`, `2d0`, `.5E-3`), a vector of numbers in braces, or a string
//! in double quotes. Whitespace may stand between any two tokens.
use vstd::prelude::*;

use crate::text::{is_whitespace, spec_is_digit, spec_is_whitespace, string_from_range};

verus! {

/// The first position at or after `i` where `p` fails, or the end of `s`.
pub open spec fn scan(s: Seq<char>, i: int, p: spec_fn(char) -> bool) -> int
    decreases s.len() - i,
{
    if 0 <= i < s.len() && p(s[i]) {
        scan(s, i + 1, p)
    } else {
        i
    }
}

/// `scan` stops at `j` when `p` holds on `[i, j)` and fails at `j` (or `j` is the end).
pub proof fn lemma_scan(s: Seq<char>, i: int, j: int, p: spec_fn(char) -> bool)
    requires
        0 <= i <= j <= s.len(),
        forall|k: int| i <= k < j ==> p(#[trigger] s[k]),
        j == s.len() || !p(s[j]),
    ensures
        scan(s, i, p) == j,
    decreases j - i,
{
    if i < j {
        lemma_scan(s, i + 1, j, p);
    }
}

/// `scan` never moves backwards, and from inside `s` it stays inside.
pub proof fn lemma_scan_bounds(s: Seq<char>, i: int, p: spec_fn(char) -> bool)
    ensures
        i <= scan(s, i, p),
        0 <= i <= s.len() ==> scan(s, i, p) <= s.len(),
    decreases s.len() - i,
{
    if 0 <= i < s.len() && p(s[i]) {
        lemma_scan_bounds(s, i + 1, p);
    }
}

/// The first position at or after `i` that is not whitespace.
pub open spec fn skip_ws(s: Seq<char>, i: int) -> int {
    scan(s, i, |c: char| spec_is_whitespace(c))
}

/// The first position at or after `i` that is not an ASCII digit.
pub open spec fn digits_end(s: Seq<char>, i: int) -> int {
    scan(s, i, |c: char| spec_is_digit(c))
}

/// Whether `c` may begin a word.
pub open spec fn is_word_start(c: char) -> bool {
    ('a' <= c && c <= 'z') || ('A' <= c && c <= 'Z') || c == '_'
}

/// Whether `c` may continue a word.
pub open spec fn is_word_char(c: char) -> bool {
    is_word_start(c) || spec_is_digit(c) || c == '.'
}

/// The end of the word that begins at `i`, if one does.
pub open spec fn word_at(s: Seq<char>, i: int) -> Option<int> {
    if 0 <= i < s.len() && is_word_start(s[i]) {
        Some(scan(s, i + 1, |c: char| is_word_char(c)))
    } else {
        None
    }
}

/// Whether `c` is a sign.
pub open spec fn is_sign(c: char) -> bool {
    c == '+' || c == '-'
}

/// Whether `c` introduces an exponent (`d` and `D` as in Fortran).
pub open spec fn is_exponent_mark(c: char) -> bool {
    c == 'e' || c == 'E' || c == 'd' || c == 'D'
}

/// The end of the number that begins at `i`, if one does: an optional sign, digits with an
/// optional fraction (at least one digit in all), then an optional exponent, which counts
/// only when digits follow its mark and optional sign.
pub open spec fn number_end(s: Seq<char>, i: int) -> Option<int> {
    let a = if 0 <= i < s.len() && is_sign(s[i]) {
        i + 1
    } else {
        i
    };
    let b = digits_end(s, a);
    let c = if 0 <= b < s.len() && s[b] == '.' {
        digits_end(s, b + 1)
    } else {
        b
    };
    let fraction = if c > b {
        c - b - 1
    } else {
        0
    };
    if (b - a) + fraction <= 0 {
        None
    } else if 0 <= c < s.len() && is_exponent_mark(s[c]) {
        let d = if c + 1 < s.len() && is_sign(s[c + 1]) {
            c + 2
        } else {
            c + 1
        };
        let e = digits_end(s, d);
        Some(
            if e > d {
                e
            } else {
                c
            },
        )
    } else {
        Some(c)
    }
}

/// A number, when one begins at `i`, ends after `i` and within `s`.
pub proof fn lemma_number_end(s: Seq<char>, i: int)
    requires
        0 <= i <= s.len(),
    ensures
        number_end(s, i) matches Some(e) ==> i < e <= s.len(),
{
    let a = if 0 <= i < s.len() && is_sign(s[i]) {
        i + 1
    } else {
        i
    };
    let b = digits_end(s, a);
    lemma_scan_bounds(s, a, |c: char| spec_is_digit(c));
    if 0 <= b < s.len() && s[b] == '.' {
        lemma_scan_bounds(s, b + 1, |c: char| spec_is_digit(c));
    }
    let c = if 0 <= b < s.len() && s[b] == '.' {
        digits_end(s, b + 1)
    } else {
        b
    };
    if 0 <= c < s.len() && is_exponent_mark(s[c]) {
        let d = if c + 1 < s.len() && is_sign(s[c + 1]) {
            c + 2
        } else {
            c + 1
        };
        lemma_scan_bounds(s, d, |c: char| spec_is_digit(c));
    }
}

/// A parameter value as written: a number, a vector of numbers, or a string (without its
/// quotes). Numbers are kept as their text.
pub enum ValueModel {
    Number(Seq<char>),
    Vector(Seq<Seq<char>>),
    Text(Seq<char>),
}

/// The value that begins at `i`, with the position after it.
pub open spec fn parse_value(s: Seq<char>, i: int) -> Option<(ValueModel, int)> {
    if 0 <= i < s.len() && s[i] == '"' {
        let j = scan(s, i + 1, |c: char| c != '"');
        if j < s.len() {
            Some((ValueModel::Text(s.subrange(i + 1, j)), j + 1))
        } else {
            None
        }
    } else if 0 <= i < s.len() && s[i] == '{' {
        parse_vector(s, skip_ws(s, i + 1), seq![])
    } else {
        match number_end(s, i) {
            Some(e) => Some((ValueModel::Number(s.subrange(i, e)), e)),
            None => None,
        }
    }
}

/// The rest of a vector from `i`, just after `{` or after a `,` and whitespace, when `acc`
/// holds the numbers before `i`; with the position after the closing `}`.
pub open spec fn parse_vector(s: Seq<char>, i: int, acc: Seq<Seq<char>>) -> Option<(ValueModel, int)>
    decreases s.len() - i,
{
    if 0 <= i < s.len() && s[i] == '}' && acc.len() == 0 {
        Some((ValueModel::Vector(acc), i + 1))
    } else if !(0 <= i <= s.len()) {
        None
    } else {
        match number_end(s, i) {
            None => None,
            Some(e) => {
                let k = skip_ws(s, e);
                let items = acc.push(s.subrange(i, e));
                if 0 <= k < s.len() && s[k] == '}' {
                    Some((ValueModel::Vector(items), k + 1))
                } else if 0 <= k < s.len() && s[k] == ',' {
                    proof {
                        lemma_number_end(s, i);
                        lemma_scan_bounds(s, e, |c: char| spec_is_whitespace(c));
                        lemma_scan_bounds(s, k + 1, |c: char| spec_is_whitespace(c));
                    }
                    parse_vector(s, skip_ws(s, k + 1), items)
                } else {
                    None
                }
            },
        }
    }
}


/// A vector, when one parses from `i`, ends after `i` and within `s`.
pub proof fn lemma_parse_vector_end(s: Seq<char>, i: int, acc: Seq<Seq<char>>)
    ensures
        parse_vector(s, i, acc) matches Some((_v, e)) ==> i < e <= s.len(),
    decreases s.len() - i,
{
    if 0 <= i < s.len() && s[i] == '}' && acc.len() == 0 {
    } else if 0 <= i <= s.len() {
        lemma_number_end(s, i);
        match number_end(s, i) {
            None => {},
            Some(e) => {
                let k = skip_ws(s, e);
                lemma_scan_bounds(s, e, |c: char| spec_is_whitespace(c));
                if 0 <= k < s.len() && s[k] == ',' {
                    lemma_scan_bounds(s, k + 1, |c: char| spec_is_whitespace(c));
                    lemma_parse_vector_end(s, skip_ws(s, k + 1), acc.push(s.subrange(i, e)));
                }
            },
        }
    }
}

/// A value, when one parses from `i`, ends after `i` and within `s`.
pub proof fn lemma_parse_value_end(s: Seq<char>, i: int)
    requires
        0 <= i <= s.len(),
    ensures
        parse_value(s, i) matches Some((_v, e)) ==> i < e <= s.len(),
{
    if 0 <= i < s.len() && s[i] == '"' {
        lemma_scan_bounds(s, i + 1, |c: char| c != '"');
    } else if 0 <= i < s.len() && s[i] == '{' {
        lemma_scan_bounds(s, i + 1, |c: char| spec_is_whitespace(c));
        lemma_parse_vector_end(s, skip_ws(s, i + 1), seq![]);
    } else {
        lemma_number_end(s, i);
    }
}

/// The parameters from `i` to the end of the statement, `NAME=value` separated by commas,
/// when `acc` holds those before `i`.
pub open spec fn parse_params(s: Seq<char>, i: int, acc: Seq<(Seq<char>, ValueModel)>) -> Option<
    Seq<(Seq<char>, ValueModel)>,
>
    decreases s.len() - i,
{
    match word_at(s, i) {
        None => None,
        Some(e) => {
            let k = skip_ws(s, e);
            if 0 <= k < s.len() && s[k] == '=' {
                match parse_value(s, skip_ws(s, k + 1)) {
                    None => None,
                    Some((v, m)) => {
                        let params = acc.push((s.subrange(i, e), v));
                        let n = skip_ws(s, m);
                        if n >= s.len() {
                            Some(params)
                        } else if 0 <= n && s[n] == ',' {
                            proof {
                                lemma_scan_bounds(s, i + 1, |c: char| is_word_char(c));
                                lemma_scan_bounds(s, e, |c: char| spec_is_whitespace(c));
                                lemma_scan_bounds(s, k + 1, |c: char| spec_is_whitespace(c));
                                lemma_parse_value_end(s, skip_ws(s, k + 1));
                                lemma_scan_bounds(s, m, |c: char| spec_is_whitespace(c));
                                lemma_scan_bounds(s, n + 1, |c: char| spec_is_whitespace(c));
                            }
                            parse_params(s, skip_ws(s, n + 1), params)
                        } else {
                            None
                        }
                    },
                }
            } else {
                None
            }
        },
    }
}

/// Whether only whitespace follows position `i`.
pub open spec fn rest_is_blank(s: Seq<char>, i: int) -> bool {
    skip_ws(s, i) >= s.len()
}

/// The labels of a line from `i` to the closing `)`, which must end the statement, when
/// `acc` holds those before `i`.
pub open spec fn parse_items(s: Seq<char>, i: int, acc: Seq<Seq<char>>) -> Option<Seq<Seq<char>>>
    decreases s.len() - i,
{
    if 0 <= i < s.len() && s[i] == ')' && acc.len() == 0 {
        if rest_is_blank(s, i + 1) {
            Some(acc)
        } else {
            None
        }
    } else {
        match word_at(s, i) {
            None => None,
            Some(e) => {
                let labels = acc.push(s.subrange(i, e));
                let k = skip_ws(s, e);
                if 0 <= k < s.len() && s[k] == ')' {
                    if rest_is_blank(s, k + 1) {
                        Some(labels)
                    } else {
                        None
                    }
                } else if 0 <= k < s.len() && s[k] == ',' {
                    proof {
                        lemma_scan_bounds(s, i + 1, |c: char| is_word_char(c));
                        lemma_scan_bounds(s, e, |c: char| spec_is_whitespace(c));
                        lemma_scan_bounds(s, k + 1, |c: char| spec_is_whitespace(c));
                    }
                    parse_items(s, skip_ws(s, k + 1), labels)
                } else {
                    None
                }
            },
        }
    }
}

/// What follows the kind of a definition.
pub enum BodyModel {
    Empty,
    Params(Seq<(Seq<char>, ValueModel)>),
    Items(Seq<Seq<char>>),
}

/// A statement: a command, or a definition of a label with a kind.
pub enum StatementModel {
    Command,
    Definition { label: Seq<char>, kind: Seq<char>, body: BodyModel },
}

/// The statement that `s` holds, if `s` is one.
pub open spec fn parse_statement(s: Seq<char>) -> Option<StatementModel> {
    let i = skip_ws(s, 0);
    match word_at(s, i) {
        None => None,
        Some(e1) => {
            let k = skip_ws(s, e1);
            if 0 <= k < s.len() && s[k] == ':' {
                let k2 = skip_ws(s, k + 1);
                match word_at(s, k2) {
                    None => None,
                    Some(e2) => {
                        let label = s.subrange(i, e1);
                        let kind = s.subrange(k2, e2);
                        let m = skip_ws(s, e2);
                        if m >= s.len() {
                            Some(StatementModel::Definition { label, kind, body: BodyModel::Empty })
                        } else if 0 <= m && s[m] == ',' {
                            match parse_params(s, skip_ws(s, m + 1), seq![]) {
                                Some(ps) => Some(
                                    StatementModel::Definition {
                                        label,
                                        kind,
                                        body: BodyModel::Params(ps),
                                    },
                                ),
                                None => None,
                            }
                        } else if 0 <= m && s[m] == '=' {
                            let p = skip_ws(s, m + 1);
                            if 0 <= p < s.len() && s[p] == '(' {
                                match parse_items(s, skip_ws(s, p + 1), seq![]) {
                                    Some(ids) => Some(
                                        StatementModel::Definition {
                                            label,
                                            kind,
                                            body: BodyModel::Items(ids),
                                        },
                                    ),
                                    None => None,
                                }
                            } else {
                                None
                            }
                        } else {
                            None
                        }
                    },
                }
            } else {
                Some(StatementModel::Command)
            }
        },
    }
}


/// A parameter value as written; numbers are kept as their text.
#[derive(Clone, Debug)]
pub enum MadValue {
    Number(String),
    Vector(Vec<String>),
    Text(String),
}

/// The characters of each string of `v`.
pub open spec fn texts(v: Seq<String>) -> Seq<Seq<char>> {
    v.map_values(|t: String| t@)
}

impl View for MadValue {
    type V = ValueModel;

    open spec fn view(&self) -> ValueModel {
        match self {
            MadValue::Number(t) => ValueModel::Number(t@),
            MadValue::Vector(v) => ValueModel::Vector(texts(v@)),
            MadValue::Text(t) => ValueModel::Text(t@),
        }
    }
}

/// The models of a list of parameters.
pub open spec fn param_models(ps: Seq<(String, MadValue)>) -> Seq<(Seq<char>, ValueModel)> {
    ps.map_values(|p: (String, MadValue)| (p.0@, p.1@))
}

/// What follows the kind of a definition.
#[derive(Clone, Debug)]
pub enum MadBody {
    Empty,
    Params(Vec<(String, MadValue)>),
    Items(Vec<String>),
}

impl View for MadBody {
    type V = BodyModel;

    open spec fn view(&self) -> BodyModel {
        match self {
            MadBody::Empty => BodyModel::Empty,
            MadBody::Params(ps) => BodyModel::Params(param_models(ps@)),
            MadBody::Items(ids) => BodyModel::Items(texts(ids@)),
        }
    }
}

/// One statement of a MAD file.
#[derive(Clone, Debug)]
pub enum MadStatement {
    Command,
    Definition { label: String, kind: String, body: MadBody },
}

impl View for MadStatement {
    type V = StatementModel;

    open spec fn view(&self) -> StatementModel {
        match self {
            MadStatement::Command => StatementModel::Command,
            MadStatement::Definition { label, kind, body } => StatementModel::Definition {
                label: label@,
                kind: kind@,
                body: body@,
            },
        }
    }
}

/// Whether `r` is what the position `m` stands for.
pub open spec fn position_result(r: Option<usize>, m: Option<int>) -> bool {
    match m {
        Some(e) => r matches Some(x) && x as int == e,
        None => r is None,
    }
}

/// Whether `r` is what the parsed value `m` stands for.
pub open spec fn value_result(r: Option<(MadValue, usize)>, m: Option<(ValueModel, int)>) -> bool {
    match m {
        Some((x, e)) => r matches Some((y, f)) && y@ == x && f as int == e,
        None => r is None,
    }
}

/// The first position at or after `i` that is not whitespace.
pub fn skip_ws_at(v: &[char], i: usize) -> (j: usize)
    requires
        i <= v.len(),
    ensures
        j == skip_ws(v@, i as int),
        i <= j <= v.len(),
{
    let mut j = i;
    while j < v.len() && is_whitespace(v[j])
        invariant
            i <= j <= v.len(),
            forall|k: int| i <= k < j ==> spec_is_whitespace(#[trigger] v@[k]),
        decreases v.len() - j,
    {
        j = j + 1;
    }
    proof {
        lemma_scan(v@, i as int, j as int, |c: char| spec_is_whitespace(c));
    }
    j
}

/// The first position at or after `i` that is not an ASCII digit.
fn digits_end_at(v: &[char], i: usize) -> (j: usize)
    requires
        i <= v.len(),
    ensures
        j == digits_end(v@, i as int),
        i <= j <= v.len(),
{
    let mut j = i;
    while j < v.len() && '0' <= v[j] && v[j] <= '9'
        invariant
            i <= j <= v.len(),
            forall|k: int| i <= k < j ==> spec_is_digit(#[trigger] v@[k]),
        decreases v.len() - j,
    {
        j = j + 1;
    }
    proof {
        lemma_scan(v@, i as int, j as int, |c: char| spec_is_digit(c));
    }
    j
}

/// Whether `c` may begin a word.
fn word_start(c: char) -> (b: bool)
    ensures
        b == is_word_start(c),
{
    ('a' <= c && c <= 'z') || ('A' <= c && c <= 'Z') || c == '_'
}

/// The end of the word that begins at `i`, if one does.
pub fn word_at_exec(v: &[char], i: usize) -> (r: Option<usize>)
    requires
        i <= v.len(),
    ensures
        position_result(r, word_at(v@, i as int)),
        r matches Some(e) ==> i < e <= v.len(),
{
    if i >= v.len() || !word_start(v[i]) {
        return None;
    }
    let mut j = i + 1;
    while j < v.len() && (word_start(v[j]) || ('0' <= v[j] && v[j] <= '9') || v[j] == '.')
        invariant
            i < j <= v.len(),
            forall|k: int| i + 1 <= k < j ==> is_word_char(#[trigger] v@[k]),
        decreases v.len() - j,
    {
        j = j + 1;
    }
    proof {
        lemma_scan(v@, i + 1, j as int, |c: char| is_word_char(c));
    }
    Some(j)
}

/// The end of the number that begins at `i`, if one does.
fn number_end_at(v: &[char], i: usize) -> (r: Option<usize>)
    requires
        i <= v.len(),
    ensures
        position_result(r, number_end(v@, i as int)),
        r matches Some(e) ==> i < e <= v.len(),
{
    proof {
        lemma_number_end(v@, i as int);
    }
    let a = if i < v.len() && (v[i] == '+' || v[i] == '-') {
        i + 1
    } else {
        i
    };
    let b = digits_end_at(v, a);
    let c = if b < v.len() && v[b] == '.' {
        digits_end_at(v, b + 1)
    } else {
        b
    };
    let fraction = if c > b {
        c - b - 1
    } else {
        0
    };
    if (b - a) + fraction == 0 {
        return None;
    }
    if c < v.len() && (v[c] == 'e' || v[c] == 'E' || v[c] == 'd' || v[c] == 'D') {
        let d = if c + 1 < v.len() && (v[c + 1] == '+' || v[c + 1] == '-') {
            c + 2
        } else {
            c + 1
        };
        let e = digits_end_at(v, d);
        if e > d {
            Some(e)
        } else {
            Some(c)
        }
    } else {
        Some(c)
    }
}


/// The rest of a vector from `start`, just after `{` and whitespace.
fn parse_vector_at(v: &[char], start: usize) -> (r: Option<(MadValue, usize)>)
    requires
        start <= v.len(),
    ensures
        value_result(r, parse_vector(v@, start as int, seq![])),
{
    if start < v.len() && v[start] == '}' {
        let empty: Vec<String> = Vec::new();
        assert(texts(empty@) =~= Seq::<Seq<char>>::empty());
        return Some((MadValue::Vector(empty), start + 1));
    }
    let mut items: Vec<String> = Vec::new();
    let mut i = start;
    assert(texts(items@) =~= Seq::<Seq<char>>::empty());
    loop
        invariant
            i <= v.len(),
            parse_vector(v@, start as int, seq![]) == parse_vector(v@, i as int, texts(items@)),
            items@.len() == 0 ==> !(i < v.len() && v@[i as int] == '}'),
        decreases v.len() - i,
    {
        match number_end_at(v, i) {
            None => {
                return None;
            },
            Some(e) => {
                let k = skip_ws_at(v, e);
                let ghost before = texts(items@);
                items.push(string_from_range(v, i, e));
                assert(texts(items@) =~= before.push(v@.subrange(i as int, e as int)));
                if k < v.len() && v[k] == '}' {
                    return Some((MadValue::Vector(items), k + 1));
                }
                if k < v.len() && v[k] == ',' {
                    i = skip_ws_at(v, k + 1);
                } else {
                    return None;
                }
            },
        }
    }
}

/// The value that begins at `i`, with the position after it.
pub fn parse_value_at(v: &[char], i: usize) -> (r: Option<(MadValue, usize)>)
    requires
        i <= v.len(),
    ensures
        value_result(r, parse_value(v@, i as int)),
{
    if i < v.len() && v[i] == '"' {
        let mut j = i + 1;
        while j < v.len() && v[j] != '"'
            invariant
                i + 1 <= j <= v.len(),
                forall|k: int| i + 1 <= k < j ==> #[trigger] v@[k] != '"',
            decreases v.len() - j,
        {
            j = j + 1;
        }
        proof {
            lemma_scan(v@, i + 1, j as int, |c: char| c != '"');
        }
        if j < v.len() {
            Some((MadValue::Text(string_from_range(v, i + 1, j)), j + 1))
        } else {
            None
        }
    } else if i < v.len() && v[i] == '{' {
        let j = skip_ws_at(v, i + 1);
        parse_vector_at(v, j)
    } else {
        match number_end_at(v, i) {
            Some(e) => Some((MadValue::Number(string_from_range(v, i, e)), e)),
            None => None,
        }
    }
}

/// The parameters from `start` to the end of the statement.
fn parse_params_at(v: &[char], start: usize) -> (r: Option<Vec<(String, MadValue)>>)
    requires
        start <= v.len(),
    ensures
        match parse_params(v@, start as int, seq![]) {
            Some(ps) => r matches Some(qs) && param_models(qs@) == ps,
            None => r is None,
        },
{
    let mut params: Vec<(String, MadValue)> = Vec::new();
    let mut i = start;
    assert(param_models(params@) =~= Seq::<(Seq<char>, ValueModel)>::empty());
    loop
        invariant
            i <= v.len(),
            parse_params(v@, start as int, seq![]) == parse_params(v@, i as int, param_models(params@)),
        decreases v.len() - i,
    {
        let e = match word_at_exec(v, i) {
            None => {
                return None;
            },
            Some(e) => e,
        };
        let k = skip_ws_at(v, e);
        if !(k < v.len() && v[k] == '=') {
            return None;
        }
        let vs = skip_ws_at(v, k + 1);
        let (value, m) = match parse_value_at(v, vs) {
            None => {
                return None;
            },
            Some(p) => p,
        };
        proof {
            lemma_parse_value_end(v@, vs as int);
        }
        let ghost before = param_models(params@);
        let name = string_from_range(v, i, e);
        params.push((name, value));
        assert(param_models(params@) =~= before.push((v@.subrange(i as int, e as int), value@)));
        let n = skip_ws_at(v, m);
        if n >= v.len() {
            return Some(params);
        }
        if v[n] == ',' {
            i = skip_ws_at(v, n + 1);
        } else {
            return None;
        }
    }
}

/// The labels of a line from `start` to the closing `)`.
fn parse_items_at(v: &[char], start: usize) -> (r: Option<Vec<String>>)
    requires
        start <= v.len(),
    ensures
        match parse_items(v@, start as int, seq![]) {
            Some(ids) => r matches Some(labels) && texts(labels@) == ids,
            None => r is None,
        },
{
    let mut labels: Vec<String> = Vec::new();
    assert(texts(labels@) =~= Seq::<Seq<char>>::empty());
    if start < v.len() && v[start] == ')' {
        let after = skip_ws_at(v, start + 1);
        if after >= v.len() {
            return Some(labels);
        } else {
            return None;
        }
    }
    let mut i = start;
    loop
        invariant
            i <= v.len(),
            parse_items(v@, start as int, seq![]) == parse_items(v@, i as int, texts(labels@)),
            labels@.len() == 0 ==> !(i < v.len() && v@[i as int] == ')'),
        decreases v.len() - i,
    {
        let e = match word_at_exec(v, i) {
            None => {
                return None;
            },
            Some(e) => e,
        };
        let ghost before = texts(labels@);
        labels.push(string_from_range(v, i, e));
        assert(texts(labels@) =~= before.push(v@.subrange(i as int, e as int)));
        let k = skip_ws_at(v, e);
        if k < v.len() && v[k] == ')' {
            let after = skip_ws_at(v, k + 1);
            if after >= v.len() {
                return Some(labels);
            } else {
                return None;
            }
        }
        if k < v.len() && v[k] == ',' {
            i = skip_ws_at(v, k + 1);
        } else {
            return None;
        }
    }
}

/// The statement that `v` holds, if `v` is one.
pub fn parse_statement_chars(v: &[char]) -> (r: Option<MadStatement>)
    ensures
        match parse_statement(v@) {
            Some(st) => r matches Some(x) && x@ == st,
            None => r is None,
        },
{
    let i = skip_ws_at(v, 0);
    let e1 = match word_at_exec(v, i) {
        None => {
            return None;
        },
        Some(e) => e,
    };
    let k = skip_ws_at(v, e1);
    if !(k < v.len() && v[k] == ':') {
        return Some(MadStatement::Command);
    }
    let k2 = skip_ws_at(v, k + 1);
    let e2 = match word_at_exec(v, k2) {
        None => {
            return None;
        },
        Some(e) => e,
    };
    let label = string_from_range(v, i, e1);
    let kind = string_from_range(v, k2, e2);
    let m = skip_ws_at(v, e2);
    if m >= v.len() {
        return Some(MadStatement::Definition { label, kind, body: MadBody::Empty });
    }
    if v[m] == ',' {
        let p = skip_ws_at(v, m + 1);
        match parse_params_at(v, p) {
            Some(ps) => Some(MadStatement::Definition { label, kind, body: MadBody::Params(ps) }),
            None => None,
        }
    } else if v[m] == '=' {
        let p = skip_ws_at(v, m + 1);
        if p < v.len() && v[p] == '(' {
            let q = skip_ws_at(v, p + 1);
            match parse_items_at(v, q) {
                Some(ids) => Some(MadStatement::Definition { label, kind, body: MadBody::Items(ids) }),
                None => None,
            }
        } else {
            None
        }
    } else {
        None
    }
}

} // verus!
