use vstd::prelude::*;

use crate::element::{ElementModel, MadElement};
use crate::error::{ErrorModel, UfoError};
use crate::lattice::{item_models, ItemModel, Lattice, LineItem, Line};
use crate::params::{build_element, build_element_spec, convert_params, param_map, upper, upper_text};
use crate::syntax::{parse_statement, parse_statement_chars, texts, BodyModel, MadBody, MadStatement, StatementModel};
use crate::text::{
    chars_of, eq_ignore_ascii_case_range, find_from, first_index, push_char, push_str, spec_eq_ignore_ascii_case,
    spec_split_on, spec_trim, string_from_range, trim_bounds,
};

verus! {

/// The state after reading `s` while removing comments: the text kept so far, whether a
/// string literal is open, and whether a comment is open.
///
/// A `!` outside a string literal opens a comment that runs to the end of the line; the
/// newline itself is kept.
pub open spec fn strip_fold(s: Seq<char>) -> (Seq<char>, bool, bool)
    decreases s.len(),
{
    if s.len() == 0 {
        (seq![], false, false)
    } else {
        let (out, in_string, in_comment) = strip_fold(s.drop_last());
        let ch = s.last();
        if in_comment {
            if ch == '\n' {
                (out.push(ch), in_string, false)
            } else {
                (out, in_string, true)
            }
        } else if ch == '"' {
            (out.push(ch), !in_string, false)
        } else if ch == '!' && !in_string {
            (out, in_string, true)
        } else {
            (out.push(ch), in_string, false)
        }
    }
}

/// `s` without its MAD comments.
pub open spec fn spec_strip_mad_comments(s: Seq<char>) -> Seq<char> {
    strip_fold(s).0
}

/// Removes MAD comments: from a `!` outside a string literal to the end of its line.
pub fn strip_mad_comments(input: &str) -> (out: String)
    ensures
        out@ == spec_strip_mad_comments(input@),
{
    let chars = chars_of(input);
    let mut out = String::new();
    let mut in_string = false;
    let mut in_comment = false;
    let mut k: usize = 0;
    while k < chars.len()
        invariant
            k <= chars.len(),
            strip_fold(chars@.take(k as int)) == (out@, in_string, in_comment),
        decreases chars.len() - k,
    {
        let ch = chars[k];
        assert(chars@.take(k + 1).drop_last() =~= chars@.take(k as int));
        if in_comment {
            if ch == '\n' {
                in_comment = false;
                push_char(&mut out, ch);
            }
        } else if ch == '"' {
            in_string = !in_string;
            push_char(&mut out, ch);
        } else if ch == '!' && !in_string {
            in_comment = true;
        } else {
            push_char(&mut out, ch);
        }
        k = k + 1;
    }
    assert(chars@.take(k as int) =~= input@);
    out
}

proof fn lemma_strip_fold_fixpoint(s: Seq<char>)
    ensures
        strip_fold(s).2 ==> !strip_fold(s).1,
        strip_fold(strip_fold(s).0) == (strip_fold(s).0, strip_fold(s).1, false),
    decreases s.len(),
{
    if s.len() > 0 {
        let p = s.drop_last();
        lemma_strip_fold_fixpoint(p);
        let (out, in_string, in_comment) = strip_fold(p);
        let ch = s.last();
        let out2 = strip_fold(s).0;
        if out2.len() > out.len() {
            assert(out2 == out.push(ch));
            assert(out2.drop_last() =~= out);
        }
    }
}

/// Removing comments twice removes no more than removing them once.
pub proof fn lemma_strip_mad_comments_idempotent(s: Seq<char>)
    ensures
        spec_strip_mad_comments(spec_strip_mad_comments(s)) == spec_strip_mad_comments(s),
{
    lemma_strip_fold_fixpoint(s);
}

/// The state after reading `s` while splitting it into statements: the trimmed, non-empty
/// statements ended so far, the start of the current statement, and whether a string
/// literal is open. A `;` outside a string literal ends a statement.
pub open spec fn split_fold(s: Seq<char>) -> (Seq<Seq<char>>, nat, bool)
    decreases s.len(),
{
    if s.len() == 0 {
        (seq![], 0, false)
    } else {
        let p = s.drop_last();
        let (stmts, start, in_string) = split_fold(p);
        let ch = s.last();
        if ch == '"' {
            (stmts, start, !in_string)
        } else if ch == ';' && !in_string {
            let stmt = spec_trim(s.subrange(start as int, p.len() as int));
            (if stmt.len() > 0 { stmts.push(stmt) } else { stmts }, s.len(), in_string)
        } else {
            (stmts, start, in_string)
        }
    }
}

/// The statements of `s`: its pieces between `;` outside string literals, trimmed, empty
/// ones left out.
pub open spec fn spec_split_statements(s: Seq<char>) -> Seq<Seq<char>> {
    let (stmts, start, in_string) = split_fold(s);
    let trailing = spec_trim(s.subrange(start as int, s.len() as int));
    if trailing.len() > 0 {
        stmts.push(trailing)
    } else {
        stmts
    }
}

proof fn lemma_split_fold_start(s: Seq<char>)
    ensures
        split_fold(s).1 <= s.len(),
    decreases s.len(),
{
    if s.len() > 0 {
        lemma_split_fold_start(s.drop_last());
    }
}

/// Splits MAD text into its statements.
pub fn split_statements(input: &str) -> (out: Vec<String>)
    ensures
        texts(out@) == spec_split_statements(input@),
{
    let chars = chars_of(input);
    let mut out: Vec<String> = Vec::new();
    let mut start: usize = 0;
    let mut in_string = false;
    let mut k: usize = 0;
    while k < chars.len()
        invariant
            k <= chars.len(),
            chars@ == input@,
            start <= k,
            split_fold(chars@.take(k as int)) == (
                texts(out@),
                start as nat,
                in_string,
            ),
        decreases chars.len() - k,
    {
        let ch = chars[k];
        let ghost p = chars@.take(k as int);
        let ghost s = chars@.take(k + 1);
        assert(s.drop_last() =~= p);
        if ch == '"' {
            in_string = !in_string;
        } else if ch == ';' && !in_string {
            let (a, b) = trim_bounds(&chars, start, k);
            assert(s.subrange(start as int, p.len() as int) =~= chars@.subrange(
                start as int,
                k as int,
            ));
            if a < b {
                let stmt = string_from_range(&chars, a, b);
                let ghost before = texts(out@);
                out.push(stmt);
                assert(texts(out@) =~= before.push(stmt@));
            }
            start = k + 1;
        }
        k = k + 1;
    }
    assert(chars@.take(k as int) =~= chars@);
    let (a, b) = trim_bounds(&chars, start, chars.len());
    if a < b {
        let stmt = string_from_range(&chars, a, b);
        let ghost before = texts(out@);
        out.push(stmt);
        assert(texts(out@) =~= before.push(stmt@));
    }
    out
}

} // verus!

verus! {

/// The file named by the first `FILE=` parameter among `params`, if it is quoted.
///
/// A parameter without `=` ends the search with nothing found.
pub open spec fn file_param(params: Seq<Seq<char>>) -> Option<Seq<char>>
    decreases params.len(),
{
    if params.len() == 0 {
        None
    } else {
        let p = params[0];
        let e = first_index(p, '=');
        if e >= p.len() {
            None
        } else {
            let key = spec_trim(p.take(e as int));
            let value = spec_trim(p.skip(e + 1 as int));
            if spec_eq_ignore_ascii_case(key, "FILE"@) {
                if value.len() >= 2 && value[0] == '"' && value.last() == '"' {
                    Some(value.subrange(1, value.len() - 1))
                } else {
                    None
                }
            } else {
                file_param(params.drop_first())
            }
        }
    }
}

/// The file that a `CALL, FILE="..."` statement includes: the command is the trimmed text
/// before the first comma, compared without regard to ASCII case, and the parameters are
/// the comma-separated pieces after it.
pub open spec fn spec_call_file(statement: Seq<char>) -> Option<Seq<char>> {
    let c = first_index(statement, ',');
    let command = spec_trim(statement.take(c as int));
    if !spec_eq_ignore_ascii_case(command, "CALL"@) || c >= statement.len() {
        None
    } else {
        file_param(spec_split_on(statement.skip(c + 1 as int), ','))
    }
}

proof fn lemma_split_on_step(s: Seq<char>, pos: int, end: int)
    requires
        0 <= pos <= end <= s.len(),
        first_index(s.skip(pos), ',') == end - pos,
    ensures
        end < s.len() ==> spec_split_on(s.skip(pos), ',') == seq![s.subrange(pos, end)]
            + spec_split_on(s.skip(end + 1), ','),
        end == s.len() ==> spec_split_on(s.skip(pos), ',') == seq![s.subrange(pos, end)],
{
    let t = s.skip(pos);
    assert(t.take(end - pos) =~= s.subrange(pos, end));
    if end < s.len() {
        assert(t.skip(end - pos + 1) =~= s.skip(end + 1));
    } else {
        assert(t =~= s.subrange(pos, end));
    }
}

/// The file that a `CALL, FILE="..."` statement includes, if it is one.
pub fn call_file(statement: &str) -> (r: Option<String>)
    ensures
        r matches Some(f) ==> spec_call_file(statement@) == Some(f@),
        r is None ==> spec_call_file(statement@) is None,
{
    let v = chars_of(statement);
    let call = chars_of("CALL");
    let file = chars_of("FILE");
    proof {
        reveal_strlit("CALL");
        reveal_strlit("FILE");
    }
    let c = find_from(&v, 0, v.len(), ',');
    assert(v@.subrange(0, v.len() as int) =~= v@);
    let (ca, cb) = trim_bounds(&v, 0, c);
    assert(v@.subrange(0, c as int) =~= v@.take(c as int));
    if !eq_ignore_ascii_case_range(&v, ca, cb, &call) || c >= v.len() {
        return None;
    }
    let ghost rest = v@.skip(c + 1);
    let mut pos = c + 1;
    assert(v@.skip(pos as int) =~= rest);
    loop
        invariant
            c < pos <= v.len(),
            v@ == statement@,
            file@ == "FILE"@,
            spec_call_file(statement@) == file_param(spec_split_on(v@.skip(pos as int), ',')),
        decreases v.len() - pos,
    {
        let end = find_from(&v, pos, v.len(), ',');
        assert(v@.subrange(pos as int, v.len() as int) =~= v@.skip(pos as int));
        proof {
            lemma_split_on_step(v@, pos as int, end as int);
        }
        let ghost p = v@.subrange(pos as int, end as int);
        let e = find_from(&v, pos, end, '=');
        if e >= end {
            return None;
        }
        let (ka, kb) = trim_bounds(&v, pos, e);
        let (va, vb) = trim_bounds(&v, e + 1, end);
        proof {
            assert(p.take(e - pos) =~= v@.subrange(pos as int, e as int));
            assert(p.skip(e - pos + 1) =~= v@.subrange(e + 1, end as int));
            let params = spec_split_on(v@.skip(pos as int), ',');
            assert(params[0] == p);
            assert(params.drop_first() =~= (if end < v.len() { spec_split_on(v@.skip(end + 1), ',') } else { Seq::empty() }));
        }
        if eq_ignore_ascii_case_range(&v, ka, kb, &file) {
            if vb - va >= 2 && v[va] == '"' && v[vb - 1] == '"' {
                let name = string_from_range(&v, va + 1, vb - 1);
                assert(name@ =~= v@.subrange(va as int, vb as int).subrange(1, (vb - va - 1) as int));
                return Some(name);
            }
            return None;
        }
        if end >= v.len() {
            assert(file_param(Seq::<Seq<char>>::empty()) is None);
            return None;
        }
        pos = end + 1;
    }
}

} // verus!

verus! {

/// The statements of a MAD text: comments removed, split at `;`, trimmed, empty ones left
/// out.
pub open spec fn mad_statements(input: Seq<char>) -> Seq<Seq<char>> {
    spec_split_statements(spec_strip_mad_comments(input))
}

/// The message for a statement that is not one.
pub open spec fn invalid_statement_message(s: Seq<char>) -> Seq<char> {
    "invalid statement `"@ + s + "`"@
}

/// The statements that `stmts` hold, or the first text that is not a statement.
pub open spec fn parse_statements(stmts: Seq<Seq<char>>) -> Result<Seq<StatementModel>, Seq<char>>
    decreases stmts.len(),
{
    if stmts.len() == 0 {
        Ok(seq![])
    } else {
        match parse_statements(stmts.drop_last()) {
            Err(t) => Err(t),
            Ok(sts) => match parse_statement(stmts.last()) {
                Some(st) => Ok(sts.push(st)),
                None => Err(stmts.last()),
            },
        }
    }
}

/// The elements and lines defined so far.
pub struct MadState {
    pub elements: Map<Seq<char>, ElementModel>,
    pub lines: Map<Seq<char>, Seq<ItemModel>>,
}

/// The items that the labels of a line stand for in `st`: an element if one has the label,
/// else a line; the first label that names neither is the error.
pub open spec fn resolve_items(st: MadState, ids: Seq<Seq<char>>) -> Result<Seq<ItemModel>, ErrorModel>
    decreases ids.len(),
{
    if ids.len() == 0 {
        Ok(seq![])
    } else {
        match resolve_items(st, ids.drop_last()) {
            Err(e) => Err(e),
            Ok(items) => {
                let id = ids.last();
                if st.elements.contains_key(id) {
                    Ok(items.push(ItemModel::Element(id)))
                } else if st.lines.contains_key(id) {
                    Ok(items.push(ItemModel::Line(id)))
                } else {
                    Err(ErrorModel::UnknownReference(id))
                }
            },
        }
    }
}

/// What one statement does to the state: a `LINE` definition stores a line (whose labels
/// must name what is already defined), another definition stores the element it builds,
/// and a command does nothing. `None` where building panics.
pub open spec fn apply_statement(st: MadState, stmt: StatementModel) -> Option<Result<MadState, ErrorModel>> {
    match stmt {
        StatementModel::Command => Some(Ok(st)),
        StatementModel::Definition { label, kind, body } => if upper(kind) == "LINE"@ {
            let items = match body {
                BodyModel::Items(ids) => resolve_items(st, ids),
                _ => Ok(seq![]),
            };
            match items {
                Ok(items) => Some(Ok(MadState { elements: st.elements, lines: st.lines.insert(label, items) })),
                Err(e) => Some(Err(e)),
            }
        } else {
            let params = match body {
                BodyModel::Params(ps) => param_map(ps),
                _ => Ok(Map::empty()),
            };
            match params {
                Err(e) => Some(Err(e)),
                Ok(p) => match build_element_spec(label, upper(kind), p) {
                    None => None,
                    Some(Err(e)) => Some(Err(e)),
                    Some(Ok(element)) => Some(
                        Ok(MadState { elements: st.elements.insert(label, element), lines: st.lines }),
                    ),
                },
            }
        },
    }
}

/// The state after the statements, in order, starting from nothing; the first error ends
/// it.
pub open spec fn apply_statements(stmts: Seq<StatementModel>) -> Option<Result<MadState, ErrorModel>>
    decreases stmts.len(),
{
    if stmts.len() == 0 {
        Some(Ok(MadState { elements: Map::empty(), lines: Map::empty() }))
    } else {
        match apply_statements(stmts.drop_last()) {
            Some(Ok(st)) => apply_statement(st, stmts.last()),
            other => other,
        }
    }
}

/// What reading a MAD text gives: every statement must parse (else the first that does
/// not is a parse error), then the statements are applied in order. `None` where a field
/// error order is `usize::MAX`, whose padding overflows.
pub open spec fn parse_mad_spec(input: Seq<char>) -> Option<Result<MadState, ErrorModel>> {
    match parse_statements(mad_statements(input)) {
        Err(t) => Some(Err(ErrorModel::Parse(invalid_statement_message(t)))),
        Ok(sts) => apply_statements(sts),
    }
}

/// Whether `l` holds what `st` describes.
pub open spec fn lattice_matches(l: Lattice<MadElement>, st: MadState) -> bool {
    &&& l.elements@.dom() == st.elements.dom()
    &&& forall|k: Seq<char>| #[trigger] l.elements@.contains_key(k) ==> l.elements@[k]@ == st.elements[k]
    &&& l.lines@.dom() == st.lines.dom()
    &&& forall|k: Seq<char>|
        #[trigger] l.lines@.contains_key(k) ==> l.lines@[k].label@ == k && item_models(
            l.lines@[k].items@,
        ) == st.lines[k]
}

/// Parses every statement of `stmts`, or reports the first that is not one.
fn parse_all(stmts: &Vec<String>) -> (r: Result<Vec<MadStatement>, UfoError>)
    ensures
        match parse_statements(texts(stmts@)) {
            Ok(sts) => r matches Ok(v) && v@.len() == sts.len() && forall|i: int|
                0 <= i < sts.len() ==> (#[trigger] v@[i])@ == sts[i],
            Err(t) => r matches Err(e) && e@ == ErrorModel::Parse(invalid_statement_message(t)),
        },
{
    let mut out: Vec<MadStatement> = Vec::new();
    let mut i: usize = 0;
    while i < stmts.len()
        invariant
            i <= stmts@.len(),
            parse_statements(texts(stmts@).take(i as int)) matches Ok(sts) && out@.len() == sts.len()
                && forall|j: int| 0 <= j < sts.len() ==> (#[trigger] out@[j])@ == sts[j],
        decreases stmts@.len() - i,
    {
        let ghost pre = texts(stmts@).take(i as int);
        let ghost next = texts(stmts@).take(i + 1);
        assert(next.drop_last() =~= pre);
        assert(next.last() == stmts@[i as int]@);
        let v = chars_of(stmts[i].as_str());
        match parse_statement_chars(v.as_slice()) {
            Some(st) => {
                out.push(st);
            },
            None => {
                proof {
                    lemma_parse_statements_prefix(texts(stmts@), i + 1);
                }
                let mut msg = String::new();
                push_str(&mut msg, "invalid statement `");
                push_str(&mut msg, stmts[i].as_str());
                push_str(&mut msg, "`");
                return Err(UfoError::Parse(msg));
            },
        }
        i = i + 1;
    }
    assert(texts(stmts@).take(i as int) =~= texts(stmts@));
    Ok(out)
}

/// An error on a prefix of the statements is the error of all of them.
proof fn lemma_parse_statements_prefix(stmts: Seq<Seq<char>>, n: int)
    requires
        0 <= n <= stmts.len(),
        parse_statements(stmts.take(n)) is Err,
    ensures
        parse_statements(stmts) == parse_statements(stmts.take(n)),
    decreases stmts.len() - n,
{
    if n < stmts.len() {
        assert(stmts.take(n + 1).drop_last() =~= stmts.take(n));
        lemma_parse_statements_prefix(stmts, n + 1);
    } else {
        assert(stmts.take(n) =~= stmts);
    }
}


/// An error on a prefix of the labels is the error of all of them.
proof fn lemma_resolve_prefix(st: MadState, ids: Seq<Seq<char>>, n: int)
    requires
        0 <= n <= ids.len(),
        resolve_items(st, ids.take(n)) is Err,
    ensures
        resolve_items(st, ids) == resolve_items(st, ids.take(n)),
    decreases ids.len() - n,
{
    if n < ids.len() {
        assert(ids.take(n + 1).drop_last() =~= ids.take(n));
        lemma_resolve_prefix(st, ids, n + 1);
    } else {
        assert(ids.take(n) =~= ids);
    }
}

/// The items that the labels of a line stand for in `lattice`.
fn resolve_line_items(lattice: &Lattice<MadElement>, ids: &Vec<String>, Ghost(st): Ghost<MadState>) -> (r: Result<
    Vec<LineItem>,
    UfoError,
>)
    requires
        lattice.elements@.dom() == st.elements.dom(),
        lattice.lines@.dom() == st.lines.dom(),
    ensures
        match resolve_items(st, texts(ids@)) {
            Ok(items) => r matches Ok(v) && item_models(v@) == items,
            Err(e) => r matches Err(x) && x@ == e,
        },
{
    let mut out: Vec<LineItem> = Vec::new();
    let mut i: usize = 0;
    assert(item_models(out@) =~= Seq::<ItemModel>::empty());
    while i < ids.len()
        invariant
            i <= ids@.len(),
            lattice.elements@.dom() == st.elements.dom(),
            lattice.lines@.dom() == st.lines.dom(),
            resolve_items(st, texts(ids@).take(i as int)) == Ok::<Seq<ItemModel>, ErrorModel>(
                item_models(out@),
            ),
        decreases ids@.len() - i,
    {
        let ghost pre = texts(ids@).take(i as int);
        let ghost next = texts(ids@).take(i + 1);
        assert(next.drop_last() =~= pre);
        assert(next.last() == ids@[i as int]@);
        let id = &ids[i];
        let ghost before = item_models(out@);
        if lattice.elements.contains_key(id.as_str()) {
            out.push(LineItem::Element(id.clone()));
            assert(item_models(out@) =~= before.push(ItemModel::Element(id@)));
        } else if lattice.lines.contains_key(id.as_str()) {
            out.push(LineItem::Line(id.clone()));
            assert(item_models(out@) =~= before.push(ItemModel::Line(id@)));
        } else {
            proof {
                lemma_resolve_prefix(st, texts(ids@), i + 1);
            }
            return Err(UfoError::UnknownReference(id.clone()));
        }
        i = i + 1;
    }
    assert(texts(ids@).take(i as int) =~= texts(ids@));
    Ok(out)
}

/// Applies one statement to `lattice`, which holds `st`.
fn apply_one(lattice: &mut Lattice<MadElement>, stmt: &MadStatement, Ghost(st): Ghost<MadState>) -> (r: Option<
    Result<(), UfoError>,
>)
    requires
        lattice_matches(*old(lattice), st),
    ensures
        match apply_statement(st, stmt@) {
            None => r is None,
            Some(Err(e)) => r matches Some(Err(x)) && x@ == e,
            Some(Ok(next)) => r matches Some(Ok(())) && lattice_matches(*final(lattice), next),
        },
{
    match stmt {
        MadStatement::Command => Some(Ok(())),
        MadStatement::Definition { label, kind, body } => {
            let upper_kind = upper_text(kind.as_str());
            if crate::params::text_eq(upper_kind.as_str(), "LINE") {
                let items = match body {
                    MadBody::Items(ids) => match resolve_line_items(lattice, ids, Ghost(st)) {
                        Ok(items) => items,
                        Err(e) => {
                            return Some(Err(e));
                        },
                    },
                    _ => {
                        let empty: Vec<LineItem> = Vec::new();
                        assert(item_models(empty@) =~= Seq::<ItemModel>::empty());
                        empty
                    },
                };
                let mut line = Line::new(label.as_str());
                line.items = items;
                let ghost old_lines = lattice.lines@;
                lattice.insert_line(line);
                proof {
                    let next = match apply_statement(st, stmt@) {
                        Some(Ok(s)) => s,
                        _ => st,
                    };
                    assert(lattice.lines@ == old_lines.insert(label@, line));
                    assert(lattice.lines@.dom() =~= next.lines.dom());
                }
                Some(Ok(()))
            } else {
                let params = match body {
                    MadBody::Params(ps) => match convert_params(ps) {
                        Ok(p) => p,
                        Err(e) => {
                            return Some(Err(e));
                        },
                    },
                    _ => {
                        let p: crate::labels::LabelMap<crate::syntax::MadValue> =
                            crate::labels::LabelMap::new();
                        assert(crate::params::model_map(p@) =~= Map::<Seq<char>, crate::syntax::ValueModel>::empty());
                        p
                    },
                };
                match build_element(label.as_str(), upper_kind.as_str(), &params) {
                    None => None,
                    Some(Err(e)) => Some(Err(e)),
                    Some(Ok(element)) => {
                        let ghost old_elements = lattice.elements@;
                        lattice.insert_element(label.clone(), element);
                        proof {
                            let next = match apply_statement(st, stmt@) {
                                Some(Ok(s)) => s,
                                _ => st,
                            };
                            assert(lattice.elements@ == old_elements.insert(label@, element));
                            assert(lattice.elements@.dom() =~= next.elements.dom());
                        }
                        Some(Ok(()))
                    },
                }
            }
        },
    }
}


/// A run of statements that stops on a prefix stops there for the whole sequence.
proof fn lemma_apply_prefix(stmts: Seq<StatementModel>, n: int)
    requires
        0 <= n <= stmts.len(),
        !(apply_statements(stmts.take(n)) matches Some(Ok(_))),
    ensures
        apply_statements(stmts) == apply_statements(stmts.take(n)),
    decreases stmts.len() - n,
{
    if n < stmts.len() {
        assert(stmts.take(n + 1).drop_last() =~= stmts.take(n));
        lemma_apply_prefix(stmts, n + 1);
    } else {
        assert(stmts.take(n) =~= stmts);
    }
}

/// Reads a MAD text into a lattice; `None` where a field error order is `usize::MAX`, whose
/// padding overflows.
pub fn parse_mad_checked(input: &str) -> (r: Option<Result<Lattice<MadElement>, UfoError>>)
    ensures
        match parse_mad_spec(input@) {
            None => r is None,
            Some(Err(e)) => r matches Some(Err(x)) && x@ == e,
            Some(Ok(st)) => r matches Some(Ok(l)) && lattice_matches(l, st),
        },
{
    let stripped = strip_mad_comments(input);
    let stmts = split_statements(stripped.as_str());
    let parsed = match parse_all(&stmts) {
        Ok(v) => v,
        Err(e) => {
            return Some(Err(e));
        },
    };
    let ghost sts = match parse_statements(mad_statements(input@)) {
        Ok(s) => s,
        Err(_) => seq![],
    };
    assert(parsed@.len() == sts.len());
    let mut lattice: Lattice<MadElement> = Lattice::new();
    let ghost mut st = MadState { elements: Map::empty(), lines: Map::empty() };
    assert(sts.take(0) =~= Seq::<StatementModel>::empty());
    assert(lattice.elements@.dom() =~= st.elements.dom());
    assert(lattice.lines@.dom() =~= st.lines.dom());
    let mut i: usize = 0;
    while i < parsed.len()
        invariant
            i <= parsed@.len(),
            parsed@.len() == sts.len(),
            forall|j: int| 0 <= j < sts.len() ==> (#[trigger] parsed@[j])@ == sts[j],
            parse_mad_spec(input@) == apply_statements(sts),
            apply_statements(sts.take(i as int)) == Some(Ok::<MadState, ErrorModel>(st)),
            lattice_matches(lattice, st),
        decreases parsed@.len() - i,
    {
        let ghost next_prefix = sts.take(i + 1);
        assert(next_prefix.drop_last() =~= sts.take(i as int));
        assert(next_prefix.last() == parsed@[i as int]@);
        match apply_one(&mut lattice, &parsed[i], Ghost(st)) {
            None => {
                proof {
                    lemma_apply_prefix(sts, i + 1);
                }
                return None;
            },
            Some(Err(e)) => {
                proof {
                    lemma_apply_prefix(sts, i + 1);
                }
                return Some(Err(e));
            },
            Some(Ok(())) => {
                proof {
                    st = match apply_statement(st, sts[i as int]) {
                        Some(Ok(s)) => s,
                        _ => st,
                    };
                }
            },
        }
        i = i + 1;
    }
    assert(sts.take(i as int) =~= sts);
    Some(Ok(lattice))
}

/// Reads a MAD text into a lattice.
pub fn parse_mad(input: &str) -> (r: Result<Lattice<MadElement>, UfoError>)
    requires
        parse_mad_spec(input@) is Some,
    ensures
        match parse_mad_spec(input@) {
            Some(Err(e)) => r matches Err(x) && x@ == e,
            Some(Ok(st)) => r matches Ok(l) && lattice_matches(l, st),
            None => false,
        },
{
    match parse_mad_checked(input) {
        Some(r) => r,
        None => vstd::pervasive::unreached(),
    }
}


/// Comments make no difference to what a text reads as: reading the text with its comments
/// removed gives what reading the text gives.
pub proof fn lemma_parse_ignores_comments(s: Seq<char>)
    ensures
        parse_mad_spec(spec_strip_mad_comments(s)) == parse_mad_spec(s),
{
    lemma_strip_mad_comments_idempotent(s);
}


/// One piece of a MAD source after its `CALL` statements are found: text to keep, or a file
/// to read in its place.
#[derive(Clone, Debug)]
pub enum SourcePiece {
    Text(String),
    Include(String),
}

/// The pieces of a MAD source, one per statement: each `CALL, FILE="..."` statement names a
/// file to include; every other statement is kept with a `;` and a newline after it.
pub fn source_pieces(input: &str) -> (r: Vec<SourcePiece>)
    ensures
        r@.len() == mad_statements(input@).len(),
        forall|i: int|
            0 <= i < r@.len() ==> match spec_call_file(mad_statements(input@)[i]) {
                Some(f) => #[trigger] r@[i] matches SourcePiece::Include(g) && g@ == f,
                None => r@[i] matches SourcePiece::Text(t) && t@ == mad_statements(input@)[i]
                    + ";\n"@,
            },
{
    let stripped = strip_mad_comments(input);
    let stmts = split_statements(stripped.as_str());
    let ghost ss = texts(stmts@);
    let mut out: Vec<SourcePiece> = Vec::new();
    let mut i: usize = 0;
    while i < stmts.len()
        invariant
            i <= stmts@.len(),
            ss == texts(stmts@),
            ss == mad_statements(input@),
            out@.len() == i,
            forall|j: int|
                0 <= j < i ==> match spec_call_file(ss[j]) {
                    Some(f) => #[trigger] out@[j] matches SourcePiece::Include(g) && g@ == f,
                    None => out@[j] matches SourcePiece::Text(t) && t@ == ss[j] + ";\n"@,
                },
        decreases stmts@.len() - i,
    {
        assert(ss[i as int] == stmts@[i as int]@);
        match call_file(stmts[i].as_str()) {
            Some(f) => {
                out.push(SourcePiece::Include(f));
            },
            None => {
                let mut t = stmts[i].clone();
                push_str(&mut t, ";\n");
                out.push(SourcePiece::Text(t));
            },
        }
        i = i + 1;
    }
    out
}

} // verus!
