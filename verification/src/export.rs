use vstd::prelude::*;

use crate::lattice::{item_model, item_models, ItemModel, Line, LineItem};
use crate::mad::{
    apply_statement, mad_statements, resolve_items, spec_strip_mad_comments,
    split_fold, strip_fold, MadState,
};
use crate::error::{ErrorModel, UfoError};
use crate::labels::LabelMap;
use crate::params::upper;
use crate::syntax::{
    is_word_char, is_word_start, lemma_scan, parse_items, parse_statement, rest_is_blank,
    skip_ws, word_at, BodyModel, StatementModel,
};
use crate::text::{lemma_trim_unchanged, push_str, spec_is_whitespace, spec_trim, spec_trim_end, spec_trim_start};

verus! {

/// The lattice file formats that a lattice can be written in.
#[derive(Clone, Copy, Debug, PartialEq, Eq, Structural)]
pub enum DumpStyle {
    Mad,
    Elegant,
    At,
    Opa,
}

/// The lower-case name of a format.
pub open spec fn spec_style_name(style: DumpStyle) -> Seq<char> {
    match style {
        DumpStyle::Mad => "mad"@,
        DumpStyle::Elegant => "elegant"@,
        DumpStyle::At => "at"@,
        DumpStyle::Opa => "opa"@,
    }
}

impl DumpStyle {
    /// The lower-case name of the format.
    pub fn name(self) -> (r: &'static str)
        ensures
            r@ == spec_style_name(self),
    {
        match self {
            DumpStyle::Mad => "mad",
            DumpStyle::Elegant => "elegant",
            DumpStyle::At => "at",
            DumpStyle::Opa => "opa",
        }
    }
}

/// The label that a line item names.
pub open spec fn item_label(item: LineItem) -> Seq<char> {
    match item {
        LineItem::Element(label) => label@,
        LineItem::Line(label) => label@,
    }
}

/// The labels of `items` joined by `", "`.
pub open spec fn join_labels(items: Seq<LineItem>) -> Seq<char>
    decreases items.len(),
{
    if items.len() == 0 {
        seq![]
    } else if items.len() == 1 {
        item_label(items[0])
    } else {
        join_labels(items.drop_last()) + ", "@ + item_label(items.last())
    }
}

/// The text of a line definition in the given format.
pub open spec fn spec_line_text(label: Seq<char>, items: Seq<LineItem>, style: DumpStyle) -> Seq<char> {
    let joined = join_labels(items);
    match style {
        DumpStyle::Mad => label + ": LINE=("@ + joined + ");\n"@,
        DumpStyle::Elegant => label + ": LINE=("@ + joined + ")\n"@,
        DumpStyle::At => label + " = ["@ + joined + "];\n\n"@,
        DumpStyle::Opa => label + " : "@ + joined + ";\r\n"@,
    }
}

/// The definition of `line` in the given format.
pub fn line_to_style(line: &Line, style: DumpStyle) -> (r: String)
    ensures
        r@ == spec_line_text(line.label@, line.items@, style),
{
    let mut joined = String::new();
    let mut k: usize = 0;
    while k < line.items.len()
        invariant
            k <= line.items.len(),
            joined@ == join_labels(line.items@.take(k as int)),
        decreases line.items.len() - k,
    {
        let label = match &line.items[k] {
            LineItem::Element(label) => label,
            LineItem::Line(label) => label,
        };
        let ghost t = line.items@.take(k + 1);
        assert(t.drop_last() =~= line.items@.take(k as int));
        if k > 0 {
            push_str(&mut joined, ", ");
        } else {
            assert(t.len() == 1);
        }
        push_str(&mut joined, label.as_str());
        k = k + 1;
    }
    assert(line.items@.take(k as int) =~= line.items@);
    let mut out = String::new();
    push_str(&mut out, line.label.as_str());
    match style {
        DumpStyle::Mad => {
            push_str(&mut out, ": LINE=(");
            push_str(&mut out, joined.as_str());
            push_str(&mut out, ");\n");
        },
        DumpStyle::Elegant => {
            push_str(&mut out, ": LINE=(");
            push_str(&mut out, joined.as_str());
            push_str(&mut out, ")\n");
        },
        DumpStyle::At => {
            push_str(&mut out, " = [");
            push_str(&mut out, joined.as_str());
            push_str(&mut out, "];\n\n");
        },
        DumpStyle::Opa => {
            push_str(&mut out, " : ");
            push_str(&mut out, joined.as_str());
            push_str(&mut out, ";\r\n");
        },
    }
    out
}


/// Whether `w` is a word of the MAD statement syntax, as labels are.
pub open spec fn is_word(w: Seq<char>) -> bool {
    &&& w.len() > 0
    &&& is_word_start(w[0])
    &&& forall|k: int| 0 <= k < w.len() ==> is_word_char(#[trigger] w[k])
}

/// Whether no character of `s` opens a comment, a string or ends a statement.
pub open spec fn plain(s: Seq<char>) -> bool {
    forall|k: int| 0 <= k < s.len() ==> #[trigger] s[k] != '!' && s[k] != '"' && s[k] != ';'
}

/// Whether no character of `s` opens a comment or a string.
pub open spec fn no_comment(s: Seq<char>) -> bool {
    forall|k: int| 0 <= k < s.len() ==> #[trigger] s[k] != '!' && s[k] != '"'
}

proof fn lemma_strip_plain(s: Seq<char>)
    requires
        no_comment(s),
    ensures
        strip_fold(s) == (s, false, false),
    decreases s.len(),
{
    if s.len() > 0 {
        assert(no_comment(s.drop_last()));
        lemma_strip_plain(s.drop_last());
        assert(s.drop_last().push(s.last()) =~= s);
    } else {
        assert(s =~= Seq::<char>::empty());
    }
}

proof fn lemma_split_plain(s: Seq<char>)
    requires
        plain(s),
    ensures
        split_fold(s) == (Seq::<Seq<char>>::empty(), 0nat, false),
    decreases s.len(),
{
    if s.len() > 0 {
        assert(plain(s.drop_last()));
        lemma_split_plain(s.drop_last());
    }
}


/// The labels of line items, joined by `", "`.
pub open spec fn line_statement(label: Seq<char>, items: Seq<LineItem>) -> Seq<char> {
    label + ": LINE=("@ + join_labels(items) + ")"@
}

/// Whether every item of `items` is labelled by a word.
pub open spec fn word_items(items: Seq<LineItem>) -> bool {
    forall|k: int| 0 <= k < items.len() ==> is_word(item_label(#[trigger] items[k]))
}

proof fn lemma_word_plain(w: Seq<char>)
    requires
        is_word(w),
    ensures
        plain(w),
{
    assert forall|k: int| 0 <= k < w.len() implies #[trigger] w[k] != '!' && w[k] != '"' && w[k]
        != ';' by {
        assert(is_word_char(w[k]));
    }
}

proof fn lemma_join_plain(items: Seq<LineItem>)
    requires
        word_items(items),
    ensures
        plain(join_labels(items)),
    decreases items.len(),
{
    reveal_strlit(", ");
    if items.len() == 1 {
        lemma_word_plain(item_label(items[0]));
    } else if items.len() > 1 {
        let p = items.drop_last();
        assert(word_items(p)) by {
            assert forall|k: int| 0 <= k < p.len() implies is_word(item_label(#[trigger] p[k])) by {
                assert(p[k] == items[k]);
            }
        }
        lemma_join_plain(p);
        lemma_word_plain(item_label(items.last()));
        let a = join_labels(p);
        let b = item_label(items.last());
        let j = a + ", "@ + b;
        assert forall|k: int| 0 <= k < j.len() implies #[trigger] j[k] != '!' && j[k] != '"' && j[k]
            != ';' by {
            if k < a.len() {
                assert(j[k] == a[k]);
            } else if k < a.len() + 2 {
            } else {
                assert(j[k] == b[k - a.len() - 2]);
            }
        }
    }
}

proof fn lemma_line_statement_plain(label: Seq<char>, items: Seq<LineItem>)
    requires
        is_word(label),
        word_items(items),
    ensures
        plain(line_statement(label, items)),
        line_statement(label, items).len() > 0,
        !spec_is_whitespace(line_statement(label, items)[0]),
        line_statement(label, items).last() == ')',
{
    reveal_strlit(": LINE=(");
    reveal_strlit(")");
    lemma_word_plain(label);
    lemma_join_plain(items);
    let j = join_labels(items);
    let st = line_statement(label, items);
    assert forall|k: int| 0 <= k < st.len() implies #[trigger] st[k] != '!' && st[k] != '"'
        && st[k] != ';' by {
        if k < label.len() {
            assert(st[k] == label[k]);
        } else if k < label.len() + 8 {
        } else if k < label.len() + 8 + j.len() {
            assert(st[k] == j[k - label.len() - 8]);
        }
    }
    assert(st[0] == label[0]);
}

/// The statements of a line written in MAD or elegant style are that line's statement.
proof fn lemma_line_text_statements(label: Seq<char>, items: Seq<LineItem>, style: DumpStyle)
    requires
        is_word(label),
        word_items(items),
        style == DumpStyle::Mad || style == DumpStyle::Elegant,
    ensures
        mad_statements(spec_line_text(label, items, style)) == seq![line_statement(label, items)],
{
    reveal_strlit(": LINE=(");
    reveal_strlit(");\n");
    reveal_strlit(")\n");
    reveal_strlit(")");
    reveal_strlit("\n");
    reveal_strlit(";\n");
    let st = line_statement(label, items);
    lemma_line_statement_plain(label, items);
    lemma_trim_unchanged(st);
    let text = spec_line_text(label, items, style);
    if style == DumpStyle::Mad {
        assert(text =~= st + ";\n"@);
        assert(no_comment(text)) by {
            assert forall|k: int| 0 <= k < text.len() implies #[trigger] text[k] != '!' && text[k]
                != '"' by {
                if k < st.len() {
                    assert(text[k] == st[k]);
                }
            }
        }
        lemma_strip_plain(text);
        assert(spec_strip_mad_comments(text) == text);
        lemma_split_plain(st);
        let t1 = st.push(';');
        assert(t1.drop_last() =~= st);
        assert(t1.subrange(0, st.len() as int) =~= st);
        assert(split_fold(t1) == (seq![st], (st.len() + 1) as nat, false));
        let t2 = t1.push('\n');
        assert(t2 =~= text);
        assert(t2.drop_last() =~= t1);
        assert(split_fold(t2) == (seq![st], (st.len() + 1) as nat, false));
        let tail = text.subrange(st.len() + 1int, text.len() as int);
        assert(tail =~= seq!['\n']);
        assert(spec_is_whitespace('\n'));
        assert(spec_trim_start(tail) == spec_trim_start(tail.drop_first()));
        assert(tail.drop_first() =~= Seq::<char>::empty());
        assert(spec_trim(tail) =~= Seq::<char>::empty());
    } else {
        assert(text =~= st + "\n"@);
        assert(plain(text)) by {
            assert forall|k: int| 0 <= k < text.len() implies #[trigger] text[k] != '!' && text[k]
                != '"' && text[k] != ';' by {
                if k < st.len() {
                    assert(text[k] == st[k]);
                }
            }
        }
        lemma_strip_plain(text);
        lemma_split_plain(text);
        assert(text.subrange(0, text.len() as int) =~= text);
        assert(text[0] == st[0]);
        assert(spec_trim_start(text) == text);
        assert(text.drop_last() =~= st);
        assert(spec_is_whitespace('\n'));
        assert(spec_trim_end(text) == spec_trim_end(st));
        assert(spec_trim(st) == spec_trim_end(st));
    }
}


proof fn lemma_word_char_not_ws(c: char)
    requires
        is_word_char(c),
    ensures
        !spec_is_whitespace(c),
        c != ')' && c != ',' && c != ':' && c != '=' && c != '(',
{
}

proof fn lemma_skip_at(s: Seq<char>, i: int)
    requires
        0 <= i < s.len(),
        !spec_is_whitespace(s[i]),
    ensures
        skip_ws(s, i) == i,
{
    lemma_scan(s, i, i, |c: char| spec_is_whitespace(c));
}

proof fn lemma_skip_space(s: Seq<char>, i: int)
    requires
        0 <= i,
        i + 1 < s.len(),
        s[i] == ' ',
        !spec_is_whitespace(s[i + 1]),
    ensures
        skip_ws(s, i) == i + 1,
{
    lemma_scan(s, i, i + 1, |c: char| spec_is_whitespace(c));
}

proof fn lemma_word_at(s: Seq<char>, i: int, w: Seq<char>)
    requires
        is_word(w),
        0 <= i,
        i + w.len() <= s.len(),
        s.subrange(i, i + w.len()) == w,
        i + w.len() == s.len() || !is_word_char(s[i + w.len()]),
    ensures
        word_at(s, i) == Some(i + w.len()),
{
    assert(s[i] == w[0]);
    assert forall|k: int| i + 1 <= k < i + w.len() implies is_word_char(#[trigger] s[k]) by {
        assert(s[k] == w[k - i]);
    }
    lemma_scan(s, i + 1, i + w.len(), |c: char| is_word_char(c));
}

proof fn lemma_join_front(items: Seq<LineItem>)
    requires
        items.len() >= 2,
    ensures
        join_labels(items) == item_label(items[0]) + ", "@ + join_labels(items.drop_first()),
    decreases items.len(),
{
    if items.len() == 2 {
        assert(items.drop_last().len() == 1);
        assert(items.drop_first().len() == 1);
        assert(items.drop_last()[0] == items[0]);
        assert(items.drop_first()[0] == items[1]);
        assert(join_labels(items.drop_last()) == item_label(items[0]));
        assert(join_labels(items.drop_first()) == item_label(items[1]));
        assert(join_labels(items) == join_labels(items.drop_last()) + ", "@ + item_label(items[1]));
    } else {
        let p = items.drop_last();
        lemma_join_front(p);
        assert(p.drop_first() =~= items.drop_first().drop_last());
        assert(p[0] == items[0]);
        assert(items.drop_first().last() == items.last());
        let a = item_label(items[0]);
        let b = join_labels(p.drop_first());
        let c = item_label(items.last());
        assert(join_labels(items) == join_labels(p) + ", "@ + c);
        assert(join_labels(items.drop_first()) == join_labels(items.drop_first().drop_last())
            + ", "@ + c);
        assert((a + ", "@ + b) + ", "@ + c =~= a + ", "@ + (b + ", "@ + c));
    }
}

/// The labels of line items.
pub open spec fn item_labels(items: Seq<LineItem>) -> Seq<Seq<char>> {
    items.map_values(|i: LineItem| item_label(i))
}

proof fn lemma_parse_items(s: Seq<char>, i: int, items: Seq<LineItem>, acc: Seq<Seq<char>>)
    requires
        items.len() > 0,
        word_items(items),
        0 <= i,
        i + join_labels(items).len() < s.len(),
        s.subrange(i, i + join_labels(items).len()) == join_labels(items),
        s[i + join_labels(items).len()] == ')',
        rest_is_blank(s, i + join_labels(items).len() + 1),
    ensures
        parse_items(s, i, acc) == Some(acc + item_labels(items)),
    decreases items.len(),
{
    reveal_strlit(", ");
    let j = join_labels(items);
    let w0 = item_label(items[0]);
    assert(is_word(item_label(items[0])));
    assert(s[i] == j[0]);
    if items.len() == 1 {
        assert(j == w0);
        lemma_word_at(s, i, w0);
        lemma_skip_at(s, i + w0.len());
        assert(s[i] != ')') by {
            lemma_word_char_not_ws(w0[0]);
        }
        assert(acc.push(w0) =~= acc + item_labels(items));
    } else {
        lemma_join_front(items);
        let rest = items.drop_first();
        let jr = join_labels(rest);
        assert(j == w0 + ", "@ + jr);
        assert(s.subrange(i, i + w0.len()) =~= w0) by {
            assert forall|k: int| 0 <= k < w0.len() implies #[trigger] s.subrange(i, i + w0.len())[k]
                == w0[k] by {
                assert(s[i + k] == j[k]);
            }
        }
        assert(s[i + w0.len()] == j[w0.len() as int]);
        assert(s[i + w0.len()] == ',');
        lemma_word_at(s, i, w0);
        lemma_skip_at(s, i + w0.len());
        assert(s[i] != ')') by {
            lemma_word_char_not_ws(w0[0]);
        }
        assert(word_items(rest)) by {
            assert forall|k: int| 0 <= k < rest.len() implies is_word(item_label(#[trigger] rest[k])) by {
                assert(rest[k] == items[k + 1]);
            }
        }
        assert(rest.len() > 0);
        let w1 = item_label(rest[0]);
        assert(is_word(w1));
        assert(jr[0] == w1[0]) by {
            if rest.len() >= 2 {
                lemma_join_front(rest);
            }
        }
        let q = i + w0.len() + 2;
        assert(s[i + w0.len() + 1] == j[w0.len() + 1int]);
        assert(s[q] == j[w0.len() + 2int]);
        assert(j[w0.len() + 2int] == jr[0]);
        lemma_word_char_not_ws(w1[0]);
        lemma_skip_space(s, i + w0.len() + 1);
        assert(s.subrange(q, q + jr.len()) =~= jr) by {
            assert forall|k: int| 0 <= k < jr.len() implies #[trigger] s.subrange(q, q + jr.len())[k]
                == jr[k] by {
                assert(s[q + k] == j[w0.len() + 2 + k]);
            }
        }
        lemma_parse_items(s, q, rest, acc.push(w0));
        assert(acc.push(w0) + item_labels(rest) =~= acc + item_labels(items));
    }
}


/// A line written in MAD or elegant style reads back as one statement, which defines a line
/// of the same label with the same labels in the same order (when the labels are words).
#[verifier::spinoff_prover]
#[verifier::rlimit(40)]
pub proof fn lemma_line_text_reads_back(label: Seq<char>, items: Seq<LineItem>, style: DumpStyle)
    requires
        is_word(label),
        word_items(items),
        style == DumpStyle::Mad || style == DumpStyle::Elegant,
    ensures
        mad_statements(spec_line_text(label, items, style)) == seq![line_statement(label, items)],
        parse_statement(line_statement(label, items)) == Some(
            StatementModel::Definition {
                label,
                kind: "LINE"@,
                body: BodyModel::Items(item_labels(items)),
            },
        ),
{
    reveal_strlit(": LINE=(");
    reveal_strlit(")");
    reveal_strlit("LINE");
    lemma_line_text_statements(label, items, style);
    lemma_line_statement_plain(label, items);
    let st = line_statement(label, items);
    let j = join_labels(items);
    let l = label.len() as int;
    assert(st.len() == l + 9 + j.len());
    assert(st.subrange(0, l) =~= label);
    assert(st[l] == ':');
    assert(st[l + 1] == ' ');
    assert(st[l + 6] == '=');
    assert(st[l + 7] == '(');
    assert(st[l + 8 + j.len()] == ')');
    lemma_skip_at(st, 0);
    lemma_word_at(st, 0, label);
    lemma_skip_at(st, l);
    assert(st[l + 2] == 'L');
    lemma_skip_space(st, l + 1);
    let kind = "LINE"@;
    assert(is_word(kind));
    assert(st.subrange(l + 2, l + 6) =~= kind);
    lemma_word_at(st, l + 2, kind);
    lemma_skip_at(st, l + 6);
    lemma_skip_at(st, l + 7);
    lemma_scan(st, st.len() as int, st.len() as int, |c: char| spec_is_whitespace(c));
    assert(rest_is_blank(st, l + 9 + j.len()));
    if items.len() == 0 {
        assert(j.len() == 0);
        lemma_skip_at(st, l + 8);
        assert(item_labels(items) =~= Seq::<Seq<char>>::empty());
    } else {
        assert(st.subrange(l + 8, l + 8 + j.len()) =~= j);
        assert(word_items(items));
        let w0 = item_label(items[0]);
        assert(is_word(w0));
        assert(j[0] == w0[0]) by {
            if items.len() >= 2 {
                lemma_join_front(items);
            }
        }
        assert(st[l + 8] == j[0]);
        lemma_word_char_not_ws(w0[0]);
        lemma_skip_at(st, l + 8);
        lemma_parse_items(st, l + 8, items, seq![]);
        assert(Seq::<Seq<char>>::empty() + item_labels(items) =~= item_labels(items));
    }
}


/// Whether each item of `items` names, in `st`, something of its own kind: an element label
/// an element; a line label a line and no element.
pub open spec fn items_resolve_as_written(st: MadState, items: Seq<LineItem>) -> bool {
    forall|k: int|
        0 <= k < items.len() ==> match #[trigger] items[k] {
            LineItem::Element(l) => st.elements.contains_key(l@),
            LineItem::Line(l) => !st.elements.contains_key(l@) && st.lines.contains_key(l@),
        }
}

proof fn lemma_resolve_as_written(st: MadState, items: Seq<LineItem>)
    requires
        items_resolve_as_written(st, items),
    ensures
        resolve_items(st, item_labels(items)) == Ok::<Seq<ItemModel>, ErrorModel>(
            item_models(items),
        ),
    decreases items.len(),
{
    if items.len() > 0 {
        let p = items.drop_last();
        assert(items_resolve_as_written(st, p)) by {
            assert forall|k: int| 0 <= k < p.len() implies match #[trigger] p[k] {
                LineItem::Element(l) => st.elements.contains_key(l@),
                LineItem::Line(l) => !st.elements.contains_key(l@) && st.lines.contains_key(l@),
            } by {
                assert(p[k] == items[k]);
            }
        }
        lemma_resolve_as_written(st, p);
        assert(item_labels(items).drop_last() =~= item_labels(p));
        assert(item_models(items) =~= item_models(p).push(item_model(items.last())));
        let last = items[items.len() - 1];
        assert(match last {
            LineItem::Element(l) => st.elements.contains_key(l@),
            LineItem::Line(l) => !st.elements.contains_key(l@) && st.lines.contains_key(l@),
        });
    } else {
        assert(item_labels(items) =~= Seq::<Seq<char>>::empty());
        assert(item_models(items) =~= Seq::<ItemModel>::empty());
    }
}

/// Writing a line in MAD or elegant style and reading the text back, where each of its
/// labels already names something of its kind, stores the same line: the same label and the
/// same items in the same order.
pub proof fn lemma_line_round_trip(st: MadState, label: Seq<char>, items: Seq<LineItem>, style: DumpStyle)
    requires
        is_word(label),
        word_items(items),
        style == DumpStyle::Mad || style == DumpStyle::Elegant,
        items_resolve_as_written(st, items),
    ensures
        mad_statements(spec_line_text(label, items, style)).len() == 1,
        parse_statement(mad_statements(spec_line_text(label, items, style))[0]) matches Some(stmt)
            && apply_statement(st, stmt) == Some(
            Ok::<MadState, ErrorModel>(
                MadState { elements: st.elements, lines: st.lines.insert(label, item_models(items)) },
            ),
        ),
{
    lemma_line_text_reads_back(label, items, style);
    lemma_resolve_as_written(st, items);
    reveal_strlit("LINE");
    assert(upper("LINE"@) =~= "LINE"@);
}


/// The error for an element that the given format cannot express.
pub fn unsupported_export(label: &str, style: DumpStyle) -> (e: UfoError)
    ensures
        e@ == (ErrorModel::UnsupportedParameter {
            kind: label@,
            parameter: spec_style_name(style) + " export"@,
        }),
{
    let mut parameter = String::new();
    push_str(&mut parameter, style.name());
    push_str(&mut parameter, " export");
    UfoError::UnsupportedParameter { kind: label.to_string(), parameter }
}

/// The text that closes a lattice in the given format.
pub open spec fn spec_lattice_footer(style: DumpStyle) -> Seq<char> {
    if style == DumpStyle::At {
        "\n\nbuildlat(RING);\n"@ + "% Set all magnets to same energy\n"@
            + "THERING = setcellstruct(THERING, 'Energy', 1:length(THERING), GLOBVAL.E0);\n"@
            + "evalin('caller', 'global THERING FAMLIST GLOBVAL');\n"@
            + "if nargout\n    varargout{1} = THERING;\nend\nend"@
    } else {
        seq![]
    }
}

/// The texts of `s` one after another.
pub open spec fn concat(s: Seq<Seq<char>>) -> Seq<char>
    decreases s.len(),
{
    if s.len() == 0 {
        seq![]
    } else {
        concat(s.drop_last()) + s.last()
    }
}

/// The lines of a map, in label order.
pub open spec fn lines_in_order(lines: LabelMap<Line>) -> Seq<Line> {
    lines.key_seq().map_values(|k: Seq<char>| lines@[k])
}

/// The definitions of `lines`, in order, in the given format.
pub open spec fn line_texts(lines: Seq<Line>, style: DumpStyle) -> Seq<Seq<char>> {
    lines.map_values(|l: Line| spec_line_text(l.label@, l.items@, style))
}

/// Whether `r` is the lattice file that `lattice_text` writes from `header`, the element
/// definitions `element_texts`, the `lines` and the format.
pub open spec fn lattice_text_outcome(
    header: Seq<char>,
    element_texts: Seq<Seq<char>>,
    lines: LabelMap<Line>,
    style: DumpStyle,
    r: Seq<char>,
) -> bool {
    r == header + concat(element_texts) + (if element_texts.len() > 0 && lines@.dom().len() > 0 {
        "\n"@
    } else {
        seq![]
    }) + concat(line_texts(lines_in_order(lines), style)) + spec_lattice_footer(style)
}

proof fn lemma_concat_ends_with_last(s: Seq<Seq<char>>)
    requires
        s.len() > 0,
    ensures
        concat(s).len() >= s.last().len(),
        concat(s).subrange(concat(s).len() - s.last().len(), concat(s).len() as int) == s.last(),
{
    let c = concat(s);
    assert(c == concat(s.drop_last()) + s.last());
    assert(c.subrange(c.len() - s.last().len(), c.len() as int) =~= s.last());
}

/// Only an AT file has closing text. In every other format the file is the header, the
/// element definitions, the separating blank line and the line definitions and nothing
/// after them: with lines it ends with the definition of the last line in label order, and
/// without lines with the last element definition.
pub proof fn lemma_lattice_text_closing(
    header: Seq<char>,
    element_texts: Seq<Seq<char>>,
    lines: LabelMap<Line>,
    style: DumpStyle,
    r: Seq<char>,
)
    requires
        lattice_text_outcome(header, element_texts, lines, style, r),
        style != DumpStyle::At,
    ensures
        r == header + concat(element_texts) + (if element_texts.len() > 0 && lines@.dom().len()
            > 0 {
            "\n"@
        } else {
            seq![]
        }) + concat(line_texts(lines_in_order(lines), style)),
        lines.key_seq().len() > 0 ==> {
            let last = lines@[lines.key_seq().last()];
            let t = spec_line_text(last.label@, last.items@, style);
            &&& r.len() >= t.len()
            &&& r.subrange(r.len() - t.len(), r.len() as int) == t
        },
        (lines.key_seq().len() == 0 && element_texts.len() > 0) ==> {
            let t = element_texts.last();
            &&& r.len() >= t.len()
            &&& r.subrange(r.len() - t.len(), r.len() as int) == t
        },
{
    let lts = line_texts(lines_in_order(lines), style);
    let body = header + concat(element_texts) + (if element_texts.len() > 0 && lines@.dom().len()
        > 0 {
        "\n"@
    } else {
        seq![]
    });
    assert(spec_lattice_footer(style) == Seq::<char>::empty());
    assert(r =~= body + concat(lts));
    if lines.key_seq().len() > 0 {
        let last = lines@[lines.key_seq().last()];
        assert(lts.last() == spec_line_text(last.label@, last.items@, style));
        lemma_concat_ends_with_last(lts);
        let t = lts.last();
        let c = concat(lts);
        assert(r.subrange(r.len() - t.len(), r.len() as int) =~= c.subrange(
            c.len() - t.len(),
            c.len() as int,
        ));
    }
    if lines.key_seq().len() == 0 && element_texts.len() > 0 {
        assert(lts.len() == 0);
        assert(concat(lts) == Seq::<char>::empty());
        lemma_concat_ends_with_last(element_texts);
        let t = element_texts.last();
        let c = concat(element_texts);
        assert(r =~= header + c + (if element_texts.len() > 0 && lines@.dom().len() > 0 {
            "\n"@
        } else {
            seq![]
        }));
        assert(lines@.dom().len() == 0) by {
            lines.lemma_view();
        }
        assert(r =~= header + c);
        assert(r.subrange(r.len() - t.len(), r.len() as int) =~= c.subrange(
            c.len() - t.len(),
            c.len() as int,
        ));
    }
}

/// A whole lattice file: the format's header, the element definitions, a blank line between
/// elements and lines when there are both, the line definitions in label order, and the
/// format's closing text.
pub fn lattice_text(header: &str, element_texts: &Vec<String>, lines: &LabelMap<Line>, style: DumpStyle) -> (r: String)
    ensures
        r@ == header@ + concat(crate::syntax::texts(element_texts@)) + (if element_texts@.len() > 0
            && lines@.dom().len() > 0 {
            "\n"@
        } else {
            seq![]
        }) + concat(line_texts(lines_in_order(*lines), style)) + spec_lattice_footer(style),
        lattice_text_outcome(header@, crate::syntax::texts(element_texts@), *lines, style, r@),
{
    let mut out = String::new();
    push_str(&mut out, header);
    let ghost ets = crate::syntax::texts(element_texts@);
    let mut i: usize = 0;
    while i < element_texts.len()
        invariant
            i <= element_texts@.len(),
            ets == crate::syntax::texts(element_texts@),
            out@ == header@ + concat(ets.take(i as int)),
        decreases element_texts@.len() - i,
    {
        assert(ets.take(i + 1).drop_last() =~= ets.take(i as int));
        push_str(&mut out, element_texts[i].as_str());
        i = i + 1;
        assert(out@ =~= header@ + concat(ets.take(i as int)));
    }
    assert(ets.take(i as int) =~= ets);
    let ghost before_lines = out@;
    if element_texts.len() > 0 && lines.len() > 0 {
        push_str(&mut out, "\n");
    }
    let ghost mid = out@;
    let values = lines.values();
    let ghost lts = line_texts(lines_in_order(*lines), style);
    let mut k: usize = 0;
    while k < values.len()
        invariant
            k <= values@.len(),
            values@.len() == lines.key_seq().len(),
            forall|j: int| 0 <= j < values@.len() ==> *(#[trigger] values@[j]) == lines@[lines.key_seq()[j]],
            lts == line_texts(lines_in_order(*lines), style),
            out@ == mid + concat(lts.take(k as int)),
        decreases values@.len() - k,
    {
        assert(lts.take(k + 1).drop_last() =~= lts.take(k as int));
        let text = line_to_style(values[k], style);
        assert(text@ == lts[k as int]);
        push_str(&mut out, text.as_str());
        k = k + 1;
        assert(out@ =~= mid + concat(lts.take(k as int)));
    }
    assert(lts.take(k as int) =~= lts);
    if style == DumpStyle::At {
        push_str(&mut out, "\n\nbuildlat(RING);\n");
        push_str(&mut out, "% Set all magnets to same energy\n");
        push_str(&mut out, "THERING = setcellstruct(THERING, 'Energy', 1:length(THERING), GLOBVAL.E0);\n");
        push_str(&mut out, "evalin('caller', 'global THERING FAMLIST GLOBVAL');\n");
        push_str(&mut out, "if nargout\n    varargout{1} = THERING;\nend\nend");
    }
    assert(out@ =~= header@ + concat(ets) + (if element_texts@.len() > 0 && lines@.dom().len() > 0 {
        "\n"@
    } else {
        seq![]
    }) + concat(lts) + spec_lattice_footer(style));
    out
}

} // verus!
