//! Parameter maps of MAD definitions, and the elements built from them.
use vstd::prelude::*;

use crate::element::{ElementModel, Marker, MadElement, WindowDef, WindowModel};
use crate::error::{ErrorModel, UfoError};
use crate::labels::{lemma_sorted_unique, sorted_labels, LabelMap};
use crate::syntax::{texts, MadValue, ValueModel, param_models};
use crate::text::{ascii_upper, chars_of, parse_usize, push_char, push_str, spec_ascii_upper, spec_parse_usize};

verus! {

/// `s` in ASCII upper case.
pub open spec fn upper(s: Seq<char>) -> Seq<char> {
    s.map_values(|c: char| spec_ascii_upper(c))
}

/// A number's text with Fortran exponent marks `d` and `D` written as `e`.
pub open spec fn normalize_number(t: Seq<char>) -> Seq<char> {
    t.map_values(
        |c: char|
            if c == 'd' || c == 'D' {
                'e'
            } else {
                c
            },
    )
}

/// Whether a number's text has a Fortran exponent mark, which `f64::from_str` refuses.
pub open spec fn has_fortran_exponent(t: Seq<char>) -> bool {
    exists|i: int| 0 <= i < t.len() && (t[i] == 'd' || t[i] == 'D')
}

/// The first number of `ts` that has a Fortran exponent mark.
pub open spec fn first_fortran_number(ts: Seq<Seq<char>>) -> Option<Seq<char>>
    decreases ts.len(),
{
    if ts.len() == 0 {
        None
    } else {
        match first_fortran_number(ts.drop_last()) {
            Some(t) => Some(t),
            None => if has_fortran_exponent(ts.last()) {
                Some(ts.last())
            } else {
                None
            },
        }
    }
}

/// The message for a number that does not parse.
pub open spec fn invalid_number_message(t: Seq<char>) -> Seq<char> {
    "invalid number `"@ + t + "`"@
}

/// A value as it is stored: scalar numbers take `e` for Fortran exponent marks; a vector
/// whose numbers have such marks is refused, its numbers being read as they stand.
pub open spec fn convert_value(v: ValueModel) -> Result<ValueModel, ErrorModel> {
    match v {
        ValueModel::Number(t) => Ok(ValueModel::Number(normalize_number(t))),
        ValueModel::Vector(ts) => match first_fortran_number(ts) {
            Some(t) => Err(ErrorModel::Parse(invalid_number_message(t))),
            None => Ok(ValueModel::Vector(ts)),
        },
        ValueModel::Text(t) => Ok(ValueModel::Text(t)),
    }
}

/// The parameters of a definition, keyed by upper-case name; a later parameter of the same
/// name replaces an earlier one.
pub open spec fn param_map(ps: Seq<(Seq<char>, ValueModel)>) -> Result<Map<Seq<char>, ValueModel>, ErrorModel>
    decreases ps.len(),
{
    if ps.len() == 0 {
        Ok(Map::empty())
    } else {
        match param_map(ps.drop_last()) {
            Err(e) => Err(e),
            Ok(m) => match convert_value(ps.last().1) {
                Err(e) => Err(e),
                Ok(v) => Ok(m.insert(upper(ps.last().0), v)),
            },
        }
    }
}

/// The models of the values of a map.
pub open spec fn model_map(m: Map<Seq<char>, MadValue>) -> Map<Seq<char>, ValueModel> {
    m.map_values(|v: MadValue| v@)
}

/// The type a parameter must have.
pub enum FieldKind {
    Number,
    Vector,
    Text,
}

/// Whether parameter `name` is given with a value of another type than `fk`; a number
/// stands for a string too.
pub open spec fn field_fault(p: Map<Seq<char>, ValueModel>, name: Seq<char>, fk: FieldKind) -> bool {
    p.contains_key(name) && match fk {
        FieldKind::Number => !(p[name] is Number),
        FieldKind::Vector => !(p[name] is Vector),
        FieldKind::Text => p[name] is Vector,
    }
}

/// The error for parameter `name` of an element of `kind` that has the wrong type.
pub open spec fn fault_error(kind: Seq<char>, name: Seq<char>, fk: FieldKind) -> ErrorModel {
    match fk {
        FieldKind::Number => ErrorModel::ExpectedNumber { kind, parameter: name },
        FieldKind::Vector => ErrorModel::ExpectedVector { kind, parameter: name },
        FieldKind::Text => ErrorModel::ExpectedString { kind, parameter: name },
    }
}

/// `rest`, unless parameter `name` has the wrong type, which is then the error.
pub open spec fn check<A>(
    p: Map<Seq<char>, ValueModel>,
    kind: Seq<char>,
    name: Seq<char>,
    fk: FieldKind,
    rest: Option<Result<A, ErrorModel>>,
) -> Option<Result<A, ErrorModel>> {
    if field_fault(p, name, fk) {
        Some(Err(fault_error(kind, name, fk)))
    } else {
        rest
    }
}

/// The number given for `name`, or `default` when there is none.
pub open spec fn number_or(p: Map<Seq<char>, ValueModel>, name: Seq<char>, default: Seq<char>) -> Seq<char> {
    if p.contains_key(name) {
        match p[name] {
            ValueModel::Number(t) => t,
            _ => default,
        }
    } else {
        default
    }
}

/// The number given for `name`, or `"0"` when there is none.
pub open spec fn num(p: Map<Seq<char>, ValueModel>, name: Seq<char>) -> Seq<char> {
    number_or(p, name, "0"@)
}

/// The vector given for `name`, or no numbers when there is none.
pub open spec fn vector_or_empty(p: Map<Seq<char>, ValueModel>, name: Seq<char>) -> Seq<Seq<char>> {
    if p.contains_key(name) {
        match p[name] {
            ValueModel::Vector(ts) => ts,
            _ => seq![],
        }
    } else {
        seq![]
    }
}

/// Whether `name` begins with `DK`.
pub open spec fn starts_with_dk(name: Seq<char>) -> bool {
    name.len() >= 2 && name[0] == 'D' && name[1] == 'K'
}

/// The order of a normal field error parameter `DK<order>`.
pub open spec fn dk_order(name: Seq<char>) -> Option<usize> {
    if starts_with_dk(name) {
        spec_parse_usize(name.skip(2))
    } else {
        None
    }
}

/// The order of a skew field error parameter `DK<order>S`.
pub open spec fn dks_order(name: Seq<char>) -> Option<usize> {
    if starts_with_dk(name) && name.len() >= 3 && name.last() == 'S' {
        spec_parse_usize(name.subrange(2, name.len() - 1))
    } else {
        None
    }
}

/// `values` with `v` at position `order`, first padded with `"0"` up to it.
pub open spec fn set_field(values: Seq<Seq<char>>, order: nat, v: Seq<char>) -> Seq<Seq<char>> {
    if order < values.len() {
        values.update(order as int, v)
    } else {
        (values + Seq::new((order - values.len()) as nat, |i: int| "0"@)).push(v)
    }
}

/// The keys of `p` in increasing order.
pub open spec fn sorted_keys(p: Map<Seq<char>, ValueModel>) -> Seq<Seq<char>> {
    choose|ks: Seq<Seq<char>>|
        sorted_labels(ks) && forall|k: Seq<char>| ks.contains(k) <==> p.contains_key(k)
}

/// The normal and skew field errors after the parameters named by `keys`, in order, have
/// been applied to `(dkn, dks)`; `None` where an order is `usize::MAX`, on which the padding
/// overflows and panics.
pub open spec fn dk_fold(
    p: Map<Seq<char>, ValueModel>,
    kind: Seq<char>,
    keys: Seq<Seq<char>>,
    dkn: Seq<Seq<char>>,
    dks: Seq<Seq<char>>,
) -> Option<Result<(Seq<Seq<char>>, Seq<Seq<char>>), ErrorModel>>
    decreases keys.len(),
{
    if keys.len() == 0 {
        Some(Ok((dkn, dks)))
    } else {
        match dk_fold(p, kind, keys.drop_last(), dkn, dks) {
            Some(Ok((n, s))) => {
                let name = keys.last();
                match dk_order(name) {
                    Some(o) => match p[name] {
                        ValueModel::Number(t) => if o == usize::MAX {
                            None
                        } else {
                            Some(Ok((set_field(n, o as nat, t), s)))
                        },
                        _ => Some(Err(ErrorModel::ExpectedNumber { kind, parameter: name })),
                    },
                    None => match dks_order(name) {
                        Some(o) => match p[name] {
                            ValueModel::Number(t) => if o == usize::MAX {
                                None
                            } else {
                                Some(Ok((n, set_field(s, o as nat, t))))
                            },
                            _ => Some(Err(ErrorModel::ExpectedNumber { kind, parameter: name })),
                        },
                        None => Some(Ok((n, s))),
                    },
                }
            },
            other => other,
        }
    }
}

/// The normal and skew field errors of a magnet: the vectors `DKN` and `DKS`, with each
/// `DK<n>` and `DK<n>S` parameter (taken in key order) setting entry `n`.
pub open spec fn field_errors(p: Map<Seq<char>, ValueModel>, kind: Seq<char>) -> Option<
    Result<(Seq<Seq<char>>, Seq<Seq<char>>), ErrorModel>,
> {
    check(
        p,
        kind,
        "DKN"@,
        FieldKind::Vector,
        check(
            p,
            kind,
            "DKS"@,
            FieldKind::Vector,
            dk_fold(p, kind, sorted_keys(p), vector_or_empty(p, "DKN"@), vector_or_empty(p, "DKS"@)),
        ),
    )
}


/// The element that `make` builds from the field errors of a magnet.
pub open spec fn with_field_errors(
    p: Map<Seq<char>, ValueModel>,
    kind: Seq<char>,
    make: spec_fn(Seq<Seq<char>>, Seq<Seq<char>>) -> ElementModel,
) -> Option<Result<ElementModel, ErrorModel>> {
    match field_errors(p, kind) {
        Some(Ok((dkn, dks))) => Some(Ok(make(dkn, dks))),
        Some(Err(e)) => Some(Err(e)),
        None => None,
    }
}

/// The aperture window: the string or number given, or the text `"0"`.
pub open spec fn window_of(p: Map<Seq<char>, ValueModel>) -> WindowModel {
    if p.contains_key("WINDOW"@) {
        match p["WINDOW"@] {
            ValueModel::Number(t) => WindowModel::Number(t),
            ValueModel::Text(t) => WindowModel::Text(t),
            _ => WindowModel::Text("0"@),
        }
    } else {
        WindowModel::Text("0"@)
    }
}

/// The aperture radius, if one is given.
pub open spec fn radius_of(p: Map<Seq<char>, ValueModel>) -> Option<Seq<char>> {
    if p.contains_key("RADIUS"@) {
        match p["RADIUS"@] {
            ValueModel::Number(t) => Some(t),
            _ => None,
        }
    } else {
        None
    }
}

/// The element that a definition of `label` with upper-case `kind` and parameters `p`
/// gives. Parameters are read in a fixed order per kind, and the first one of the wrong type
/// is the error; parameters that the kind does not read are ignored. `None` where a field
/// error order is `usize::MAX`, whose padding overflows.
pub open spec fn build_element_spec(label: Seq<char>, kind: Seq<char>, p: Map<Seq<char>, ValueModel>) -> Option<
    Result<ElementModel, ErrorModel>,
> {
    let n = FieldKind::Number;
    if kind == "MARKER"@ {
        Some(Ok(ElementModel::Marker { label }))
    } else if kind == "DRIFT"@ {
        check(p, kind, "L"@, n, Some(Ok(ElementModel::Drift { label, length: num(p, "L"@) })))
    } else if kind == "MULTIPOLE"@ {
        check(
            p,
            kind,
            "KNL"@,
            FieldKind::Vector,
            check(
                p,
                kind,
                "KSL"@,
                FieldKind::Vector,
                check(
                    p,
                    kind,
                    "DX"@,
                    n,
                    check(
                        p,
                        kind,
                        "DY"@,
                        n,
                        Some(
                            Ok(
                                ElementModel::Multipole {
                                    label,
                                    knl: vector_or_empty(p, "KNL"@),
                                    ksl: vector_or_empty(p, "KSL"@),
                                    dx: num(p, "DX"@),
                                    dy: num(p, "DY"@),
                                },
                            ),
                        ),
                    ),
                ),
            ),
        )
    } else if kind == "QUADRUPOLE"@ {
        check(
            p,
            kind,
            "L"@,
            n,
            check(
                p,
                kind,
                "K1"@,
                n,
                check(
                    p,
                    kind,
                    "DX"@,
                    n,
                    check(
                        p,
                        kind,
                        "DY"@,
                        n,
                        with_field_errors(
                            p,
                            kind,
                            |dkn: Seq<Seq<char>>, dks: Seq<Seq<char>>|
                                ElementModel::Quadrupole {
                                    label,
                                    length: num(p, "L"@),
                                    k1: num(p, "K1"@),
                                    dx: num(p, "DX"@),
                                    dy: num(p, "DY"@),
                                    dkn,
                                    dks,
                                },
                        ),
                    ),
                ),
            ),
        )
    } else if kind == "SBEND"@ {
        check(
            p,
            kind,
            "L"@,
            n,
            check(
                p,
                kind,
                "ANGLE"@,
                n,
                check(
                    p,
                    kind,
                    "K1"@,
                    n,
                    check(
                        p,
                        kind,
                        "E1"@,
                        n,
                        check(
                            p,
                            kind,
                            "E2"@,
                            n,
                            check(
                                p,
                                kind,
                                "HGAP"@,
                                n,
                                check(
                                    p,
                                    kind,
                                    "FINT"@,
                                    n,
                                    check(
                                        p,
                                        kind,
                                        "DX"@,
                                        n,
                                        check(
                                            p,
                                            kind,
                                            "DY"@,
                                            n,
                                            with_field_errors(
                                                p,
                                                kind,
                                                |dkn: Seq<Seq<char>>, dks: Seq<Seq<char>>|
                                                    ElementModel::Sbend {
                                                        label,
                                                        length: num(p, "L"@),
                                                        angle: num(p, "ANGLE"@),
                                                        k1: num(p, "K1"@),
                                                        e1: num(p, "E1"@),
                                                        e2: num(p, "E2"@),
                                                        hgap: num(p, "HGAP"@),
                                                        fint: num(p, "FINT"@),
                                                        dx: num(p, "DX"@),
                                                        dy: num(p, "DY"@),
                                                        dkn,
                                                        dks,
                                                    },
                                            ),
                                        ),
                                    ),
                                ),
                            ),
                        ),
                    ),
                ),
            ),
        )
    } else if kind == "RBEND"@ {
        match field_errors(p, kind) {
            None => None,
            Some(Err(e)) => Some(Err(e)),
            Some(Ok((dkn, dks))) => check(
                p,
                kind,
                "L"@,
                n,
                check(
                    p,
                    kind,
                    "ANGLE"@,
                    n,
                    check(
                        p,
                        kind,
                        "K1"@,
                        n,
                        check(
                            p,
                            kind,
                            "E1"@,
                            n,
                            check(
                                p,
                                kind,
                                "E2"@,
                                n,
                                check(
                                    p,
                                    kind,
                                    "HGAP"@,
                                    n,
                                    check(
                                        p,
                                        kind,
                                        "FINT"@,
                                        n,
                                        check(
                                            p,
                                            kind,
                                            "DX"@,
                                            n,
                                            check(
                                                p,
                                                kind,
                                                "DY"@,
                                                n,
                                                Some(
                                                    Ok(
                                                        ElementModel::Rbend {
                                                            label,
                                                            length: num(p, "L"@),
                                                            angle: num(p, "ANGLE"@),
                                                            k1: num(p, "K1"@),
                                                            e1: num(p, "E1"@),
                                                            e2: num(p, "E2"@),
                                                            hgap: num(p, "HGAP"@),
                                                            fint: num(p, "FINT"@),
                                                            dx: num(p, "DX"@),
                                                            dy: num(p, "DY"@),
                                                            dkn,
                                                            dks,
                                                        },
                                                    ),
                                                ),
                                            ),
                                        ),
                                    ),
                                ),
                            ),
                        ),
                    ),
                ),
            ),
        }
    } else if kind == "SEXTUPOLE"@ {
        check(
            p,
            kind,
            "L"@,
            n,
            check(
                p,
                kind,
                "K2"@,
                n,
                check(
                    p,
                    kind,
                    "K2S"@,
                    n,
                    check(
                        p,
                        kind,
                        "DX"@,
                        n,
                        check(
                            p,
                            kind,
                            "DY"@,
                            n,
                            with_field_errors(
                                p,
                                kind,
                                |dkn: Seq<Seq<char>>, dks: Seq<Seq<char>>|
                                    ElementModel::Sextupole {
                                        label,
                                        length: num(p, "L"@),
                                        k2: num(p, "K2"@),
                                        k2s: num(p, "K2S"@),
                                        dx: num(p, "DX"@),
                                        dy: num(p, "DY"@),
                                        dkn,
                                        dks,
                                    },
                            ),
                        ),
                    ),
                ),
            ),
        )
    } else if kind == "OCTUPOLE"@ {
        check(
            p,
            kind,
            "L"@,
            n,
            check(
                p,
                kind,
                "K3"@,
                n,
                check(
                    p,
                    kind,
                    "K3S"@,
                    n,
                    check(
                        p,
                        kind,
                        "DX"@,
                        n,
                        check(
                            p,
                            kind,
                            "DY"@,
                            n,
                            with_field_errors(
                                p,
                                kind,
                                |dkn: Seq<Seq<char>>, dks: Seq<Seq<char>>|
                                    ElementModel::Octupole {
                                        label,
                                        length: num(p, "L"@),
                                        k3: num(p, "K3"@),
                                        k3s: num(p, "K3S"@),
                                        dx: num(p, "DX"@),
                                        dy: num(p, "DY"@),
                                        dkn,
                                        dks,
                                    },
                            ),
                        ),
                    ),
                ),
            ),
        )
    } else if kind == "WIRE"@ {
        check(
            p,
            kind,
            "X"@,
            n,
            check(
                p,
                kind,
                "Y"@,
                n,
                check(
                    p,
                    kind,
                    "K"@,
                    n,
                    Some(
                        Ok(
                            ElementModel::Wire {
                                label,
                                x: num(p, "X"@),
                                y: num(p, "Y"@),
                                k: num(p, "K"@),
                            },
                        ),
                    ),
                ),
            ),
        )
    } else if kind == "CAVITY"@ {
        check(
            p,
            kind,
            "FIELD"@,
            n,
            check(
                p,
                kind,
                "OMEGA"@,
                n,
                check(
                    p,
                    kind,
                    "LAG"@,
                    n,
                    Some(
                        Ok(
                            ElementModel::Cavity {
                                label,
                                field: num(p, "FIELD"@),
                                omega: num(p, "OMEGA"@),
                                lag: num(p, "LAG"@),
                            },
                        ),
                    ),
                ),
            ),
        )
    } else if kind == "APERTURE"@ {
        check(
            p,
            kind,
            "WINDOW"@,
            FieldKind::Text,
            check(
                p,
                kind,
                "RADIUS"@,
                n,
                Some(Ok(ElementModel::Aperture { label, window: window_of(p), radius: radius_of(p) })),
            ),
        )
    } else {
        Some(Err(ErrorModel::UnknownElementKind(kind)))
    }
}


/// `s` in ASCII upper case.
pub fn upper_text(s: &str) -> (r: String)
    ensures
        r@ == upper(s@),
{
    let v = chars_of(s);
    let mut out = String::new();
    let mut i: usize = 0;
    while i < v.len()
        invariant
            i <= v@.len(),
            v@ == s@,
            out@ == upper(v@.take(i as int)),
        decreases v@.len() - i,
    {
        push_char(&mut out, ascii_upper(v[i]));
        i = i + 1;
        assert(out@ =~= upper(v@.take(i as int)));
    }
    assert(v@.take(i as int) =~= v@);
    out
}

/// A number's text with `d` and `D` written as `e`.
fn normalize_text(s: &str) -> (r: String)
    ensures
        r@ == normalize_number(s@),
{
    let v = chars_of(s);
    let mut out = String::new();
    let mut i: usize = 0;
    while i < v.len()
        invariant
            i <= v@.len(),
            v@ == s@,
            out@ == normalize_number(v@.take(i as int)),
        decreases v@.len() - i,
    {
        let c = v[i];
        if c == 'd' || c == 'D' {
            push_char(&mut out, 'e');
        } else {
            push_char(&mut out, c);
        }
        i = i + 1;
        assert(out@ =~= normalize_number(v@.take(i as int)));
    }
    assert(v@.take(i as int) =~= v@);
    out
}

/// Whether a number's text has a Fortran exponent mark.
fn fortran_exponent(s: &str) -> (r: bool)
    ensures
        r == has_fortran_exponent(s@),
{
    let v = chars_of(s);
    let mut i: usize = 0;
    while i < v.len()
        invariant
            i <= v@.len(),
            v@ == s@,
            forall|k: int| 0 <= k < i ==> !(#[trigger] v@[k] == 'd' || v@[k] == 'D'),
        decreases v@.len() - i,
    {
        if v[i] == 'd' || v[i] == 'D' {
            return true;
        }
        i = i + 1;
    }
    false
}

/// A copy of a list of strings.
fn copy_texts(v: &Vec<String>) -> (r: Vec<String>)
    ensures
        texts(r@) == texts(v@),
{
    let mut out: Vec<String> = Vec::new();
    let mut i: usize = 0;
    while i < v.len()
        invariant
            i <= v@.len(),
            texts(out@) == texts(v@.take(i as int)),
        decreases v@.len() - i,
    {
        let ghost before = out@;
        let c = v[i].clone();
        assert(c@ == v@[i as int]@);
        out.push(c);
        assert(out@ == before.push(c));
        assert(v@.take(i + 1) =~= v@.take(i as int).push(v@[i as int]));
        i = i + 1;
        assert(texts(out@) =~= texts(v@.take(i as int))) by {
            assert(texts(out@) =~= texts(before).push(c@));
            assert(texts(v@.take(i as int)) =~= texts(v@.take(i - 1)).push(v@[i - 1]@));
        }
    }
    assert(v@.take(i as int) =~= v@);
    out
}

/// A value as it is stored in a parameter map.
fn stored_value(v: &MadValue) -> (r: Result<MadValue, UfoError>)
    ensures
        match convert_value(v@) {
            Ok(m) => r matches Ok(x) && x@ == m,
            Err(e) => r matches Err(x) && x@ == e,
        },
{
    match v {
        MadValue::Number(t) => Ok(MadValue::Number(normalize_text(t.as_str()))),
        MadValue::Text(t) => Ok(MadValue::Text(t.clone())),
        MadValue::Vector(ts) => {
            let mut i: usize = 0;
            while i < ts.len()
                invariant
                    i <= ts@.len(),
                    v@ == ValueModel::Vector(texts(ts@)),
                    first_fortran_number(texts(ts@.take(i as int))) is None,
                decreases ts@.len() - i,
            {
                let ghost pre = texts(ts@.take(i as int));
                let ghost next = texts(ts@.take(i + 1));
                assert(next.drop_last() =~= pre);
                if fortran_exponent(ts[i].as_str()) {
                    let mut msg = String::new();
                    push_str(&mut msg, "invalid number `");
                    push_str(&mut msg, ts[i].as_str());
                    push_str(&mut msg, "`");
                    proof {
                        assert(texts(ts@).take(i + 1) =~= next);
                        assert(next.last() == ts@[i as int]@);
                        lemma_first_fortran_prefix(texts(ts@), i + 1);
                    }
                    return Err(UfoError::Parse(msg));
                }
                i = i + 1;
            }
            assert(ts@.take(i as int) =~= ts@);
            Ok(MadValue::Vector(copy_texts(ts)))
        },
    }
}

/// A first Fortran-marked number within a prefix is the first of the whole sequence.
proof fn lemma_first_fortran_prefix(ts: Seq<Seq<char>>, n: int)
    requires
        0 <= n <= ts.len(),
        first_fortran_number(ts.take(n)) is Some,
    ensures
        first_fortran_number(ts) == first_fortran_number(ts.take(n)),
    decreases ts.len() - n,
{
    if n < ts.len() {
        assert(ts.take(n + 1).drop_last() =~= ts.take(n));
        lemma_first_fortran_prefix(ts, n + 1);
    } else {
        assert(ts.take(n) =~= ts);
    }
}


/// An error on a prefix of the parameters is the error of all of them.
proof fn lemma_param_map_prefix(ps: Seq<(Seq<char>, ValueModel)>, n: int)
    requires
        0 <= n <= ps.len(),
        param_map(ps.take(n)) is Err,
    ensures
        param_map(ps) == param_map(ps.take(n)),
    decreases ps.len() - n,
{
    if n < ps.len() {
        assert(ps.take(n + 1).drop_last() =~= ps.take(n));
        lemma_param_map_prefix(ps, n + 1);
    } else {
        assert(ps.take(n) =~= ps);
    }
}

/// The parameter map of a definition: names in upper case, values as stored.
pub fn convert_params(ps: &Vec<(String, MadValue)>) -> (r: Result<LabelMap<MadValue>, UfoError>)
    ensures
        match param_map(param_models(ps@)) {
            Ok(m) => r matches Ok(pm) && model_map(pm@) == m,
            Err(e) => r matches Err(x) && x@ == e,
        },
{
    let mut map: LabelMap<MadValue> = LabelMap::new();
    let mut i: usize = 0;
    assert(param_models(ps@).take(0) =~= Seq::<(Seq<char>, ValueModel)>::empty());
    assert(model_map(map@) =~= Map::<Seq<char>, ValueModel>::empty());
    while i < ps.len()
        invariant
            i <= ps@.len(),
            param_map(param_models(ps@).take(i as int)) == Ok::<Map<Seq<char>, ValueModel>, ErrorModel>(
                model_map(map@),
            ),
        decreases ps@.len() - i,
    {
        let ghost pre = param_models(ps@).take(i as int);
        let ghost next = param_models(ps@).take(i + 1);
        assert(next.drop_last() =~= pre);
        assert(next.last() == (ps@[i as int].0@, ps@[i as int].1@));
        match stored_value(&ps[i].1) {
            Err(e) => {
                proof {
                    lemma_param_map_prefix(param_models(ps@), i + 1);
                }
                return Err(e);
            },
            Ok(v) => {
                let name = upper_text(ps[i].0.as_str());
                let ghost before = map@;
                map.insert(name, v);
                assert(model_map(map@) =~= model_map(before).insert(name@, v@));
            },
        }
        i = i + 1;
    }
    assert(param_models(ps@).take(i as int) =~= param_models(ps@));
    Ok(map)
}


/// The number given for `name`, or `"0"`.
fn number_field(p: &LabelMap<MadValue>, kind: &str, name: &str) -> (r: Result<String, UfoError>)
    ensures
        field_fault(model_map(p@), name@, FieldKind::Number) ==> (r matches Err(x) && x@
            == fault_error(kind@, name@, FieldKind::Number)),
        !field_fault(model_map(p@), name@, FieldKind::Number) ==> (r matches Ok(t) && t@ == num(
            model_map(p@),
            name@,
        )),
{
    match p.get(name) {
        None => Ok("0".to_string()),
        Some(MadValue::Number(t)) => Ok(t.clone()),
        Some(_) => Err(UfoError::ExpectedNumber { kind: kind.to_string(), parameter: name.to_string() }),
    }
}

/// The vector given for `name`, or no numbers.
fn vector_field(p: &LabelMap<MadValue>, kind: &str, name: &str) -> (r: Result<Vec<String>, UfoError>)
    ensures
        field_fault(model_map(p@), name@, FieldKind::Vector) ==> (r matches Err(x) && x@
            == fault_error(kind@, name@, FieldKind::Vector)),
        !field_fault(model_map(p@), name@, FieldKind::Vector) ==> (r matches Ok(ts) && texts(ts@)
            == vector_or_empty(model_map(p@), name@)),
{
    match p.get(name) {
        None => {
            let empty: Vec<String> = Vec::new();
            assert(texts(empty@) =~= Seq::<Seq<char>>::empty());
            Ok(empty)
        },
        Some(MadValue::Vector(ts)) => Ok(copy_texts(ts)),
        Some(_) => Err(UfoError::ExpectedVector { kind: kind.to_string(), parameter: name.to_string() }),
    }
}

/// The aperture window.
fn window_field(p: &LabelMap<MadValue>, kind: &str) -> (r: Result<WindowDef, UfoError>)
    ensures
        field_fault(model_map(p@), "WINDOW"@, FieldKind::Text) ==> (r matches Err(x) && x@
            == fault_error(kind@, "WINDOW"@, FieldKind::Text)),
        !field_fault(model_map(p@), "WINDOW"@, FieldKind::Text) ==> (r matches Ok(w) && w@
            == window_of(model_map(p@))),
{
    match p.get("WINDOW") {
        None => Ok(WindowDef::Text("0".to_string())),
        Some(MadValue::Text(t)) => Ok(WindowDef::Text(t.clone())),
        Some(MadValue::Number(t)) => Ok(WindowDef::Number(t.clone())),
        Some(_) => Err(
            UfoError::ExpectedString { kind: kind.to_string(), parameter: "WINDOW".to_string() },
        ),
    }
}

/// The aperture radius.
fn radius_field(p: &LabelMap<MadValue>, kind: &str) -> (r: Result<Option<String>, UfoError>)
    ensures
        field_fault(model_map(p@), "RADIUS"@, FieldKind::Number) ==> (r matches Err(x) && x@
            == fault_error(kind@, "RADIUS"@, FieldKind::Number)),
        !field_fault(model_map(p@), "RADIUS"@, FieldKind::Number) ==> (r matches Ok(o) && (match o {
            Some(t) => Some(t@),
            None => None::<Seq<char>>,
        }) == radius_of(model_map(p@))),
{
    match p.get("RADIUS") {
        None => Ok(None),
        Some(MadValue::Number(t)) => Ok(Some(t.clone())),
        Some(_) => Err(
            UfoError::ExpectedNumber { kind: kind.to_string(), parameter: "RADIUS".to_string() },
        ),
    }
}

/// The order of a normal field error parameter `DK<order>`.
fn dk_order_of(name: &str) -> (r: Option<usize>)
    ensures
        r == dk_order(name@),
{
    let v = chars_of(name);
    if v.len() >= 2 && v[0] == 'D' && v[1] == 'K' {
        assert(v@.subrange(2, v@.len() as int) =~= name@.skip(2));
        parse_usize(v.as_slice(), 2, v.len())
    } else {
        None
    }
}

/// The order of a skew field error parameter `DK<order>S`.
fn dks_order_of(name: &str) -> (r: Option<usize>)
    ensures
        r == dks_order(name@),
{
    let v = chars_of(name);
    if v.len() >= 3 && v[0] == 'D' && v[1] == 'K' && v[v.len() - 1] == 'S' {
        parse_usize(v.as_slice(), 2, v.len() - 1)
    } else {
        None
    }
}

/// Puts `value` at position `order` of `values`, padding with `"0"` up to it.
fn set_field_error(values: &mut Vec<String>, order: usize, value: String)
    requires
        order < usize::MAX,
    ensures
        texts(final(values)@) == set_field(texts(old(values)@), order as nat, value@),
{
    if order < values.len() {
        let ghost before = values@;
        values.set(order, value);
        assert(texts(values@) =~= texts(before).update(order as int, value@));
    } else {
        let ghost start = texts(values@);
        while values.len() < order
            invariant
                start.len() <= values@.len() <= order,
                texts(values@) == start + Seq::new((values@.len() - start.len()) as nat, |i: int| "0"@),
            decreases order - values@.len(),
        {
            let ghost before = values@;
            values.push("0".to_string());
            assert(texts(values@) =~= start + Seq::new((values@.len() - start.len()) as nat, |i: int| "0"@)) by {
                assert(texts(values@) =~= texts(before).push("0"@));
            }
        }
        let ghost padded = values@;
        values.push(value);
        assert(texts(values@) =~= texts(padded).push(value@));
    }
}

/// A fold that stops on a prefix stops there for the whole sequence.
proof fn lemma_dk_fold_prefix(
    p: Map<Seq<char>, ValueModel>,
    kind: Seq<char>,
    keys: Seq<Seq<char>>,
    dkn: Seq<Seq<char>>,
    dks: Seq<Seq<char>>,
    n: int,
)
    requires
        0 <= n <= keys.len(),
        !(dk_fold(p, kind, keys.take(n), dkn, dks) matches Some(Ok(_))),
    ensures
        dk_fold(p, kind, keys, dkn, dks) == dk_fold(p, kind, keys.take(n), dkn, dks),
    decreases keys.len() - n,
{
    if n < keys.len() {
        assert(keys.take(n + 1).drop_last() =~= keys.take(n));
        lemma_dk_fold_prefix(p, kind, keys, dkn, dks, n + 1);
    } else {
        assert(keys.take(n) =~= keys);
    }
}


/// Whether `r` stands for the outcome `m` of reading the field errors.
pub open spec fn field_errors_result(
    r: Option<Result<(Vec<String>, Vec<String>), UfoError>>,
    m: Option<Result<(Seq<Seq<char>>, Seq<Seq<char>>), ErrorModel>>,
) -> bool {
    match m {
        None => r is None,
        Some(Ok((n, s))) => r matches Some(Ok((a, b))) && texts(a@) == n && texts(b@) == s,
        Some(Err(e)) => r matches Some(Err(x)) && x@ == e,
    }
}

/// The normal and skew field errors of a magnet; `None` where an order is `usize::MAX`.
fn field_errors_of(p: &LabelMap<MadValue>, kind: &str) -> (r: Option<
    Result<(Vec<String>, Vec<String>), UfoError>,
>)
    ensures
        field_errors_result(r, field_errors(model_map(p@), kind@)),
{
    let ghost mp = model_map(p@);
    let mut dkn = match vector_field(p, kind, "DKN") {
        Ok(v) => v,
        Err(e) => {
            return Some(Err(e));
        },
    };
    let mut dks = match vector_field(p, kind, "DKS") {
        Ok(v) => v,
        Err(e) => {
            return Some(Err(e));
        },
    };
    let ghost dkn0 = texts(dkn@);
    let ghost dks0 = texts(dks@);
    let keys = p.keys();
    let ghost ks = p.key_seq();
    proof {
        assert forall|k: Seq<char>| ks.contains(k) <==> mp.contains_key(k) by {}
        let chosen = sorted_keys(mp);
        assert(sorted_labels(chosen) && forall|k: Seq<char>| chosen.contains(k) <==> mp.contains_key(k));
        lemma_sorted_unique(chosen, ks);
        assert(ks.take(0) =~= Seq::<Seq<char>>::empty());
    }
    let mut i: usize = 0;
    while i < keys.len()
        invariant
            i <= keys@.len(),
            keys@.len() == ks.len(),
            forall|j: int| 0 <= j < keys@.len() ==> (#[trigger] keys@[j])@ == ks[j],
            forall|k: Seq<char>| p@.contains_key(k) <==> ks.contains(k),
            mp == model_map(p@),
            sorted_keys(mp) == ks,
            dk_fold(mp, kind@, ks.take(i as int), dkn0, dks0) == Some(
                Ok::<(Seq<Seq<char>>, Seq<Seq<char>>), ErrorModel>((texts(dkn@), texts(dks@))),
            ),
            field_errors(mp, kind@) == dk_fold(mp, kind@, ks, dkn0, dks0),
        decreases keys@.len() - i,
    {
        let name: &String = keys[i];
        let ghost pre = ks.take(i as int);
        let ghost next = ks.take(i + 1);
        assert(next.drop_last() =~= pre);
        assert(next.last() == name@);
        assert(ks.contains(name@));
        match dk_order_of(name.as_str()) {
            Some(o) => match p.get(name.as_str()) {
                Some(MadValue::Number(t)) => {
                    if o == usize::MAX {
                        proof {
                            lemma_dk_fold_prefix(mp, kind@, ks, dkn0, dks0, i + 1);
                        }
                        return None;
                    }
                    set_field_error(&mut dkn, o, t.clone());
                },
                _ => {
                    proof {
                        lemma_dk_fold_prefix(mp, kind@, ks, dkn0, dks0, i + 1);
                    }
                    return Some(
                        Err(
                            UfoError::ExpectedNumber {
                                kind: kind.to_string(),
                                parameter: name.clone(),
                            },
                        ),
                    );
                },
            },
            None => match dks_order_of(name.as_str()) {
                Some(o) => match p.get(name.as_str()) {
                    Some(MadValue::Number(t)) => {
                        if o == usize::MAX {
                            proof {
                                lemma_dk_fold_prefix(mp, kind@, ks, dkn0, dks0, i + 1);
                            }
                            return None;
                        }
                        set_field_error(&mut dks, o, t.clone());
                    },
                    _ => {
                        proof {
                            lemma_dk_fold_prefix(mp, kind@, ks, dkn0, dks0, i + 1);
                        }
                        return Some(
                            Err(
                                UfoError::ExpectedNumber {
                                    kind: kind.to_string(),
                                    parameter: name.clone(),
                                },
                            ),
                        );
                    },
                },
                None => {},
            },
        }
        i = i + 1;
    }
    assert(ks.take(i as int) =~= ks);
    Some(Ok((dkn, dks)))
}


/// The element kind names are told apart by their lengths and first letters.
proof fn lemma_kind_names()
    ensures
        "MARKER"@.len() == 6 && "MARKER"@[0] == 'M',
        "DRIFT"@.len() == 5 && "DRIFT"@[0] == 'D',
        "MULTIPOLE"@.len() == 9 && "MULTIPOLE"@[0] == 'M',
        "QUADRUPOLE"@.len() == 10 && "QUADRUPOLE"@[0] == 'Q',
        "SBEND"@.len() == 5 && "SBEND"@[0] == 'S',
        "RBEND"@.len() == 5 && "RBEND"@[0] == 'R',
        "SEXTUPOLE"@.len() == 9 && "SEXTUPOLE"@[0] == 'S',
        "OCTUPOLE"@.len() == 8 && "OCTUPOLE"@[0] == 'O',
        "WIRE"@.len() == 4 && "WIRE"@[0] == 'W',
        "CAVITY"@.len() == 6 && "CAVITY"@[0] == 'C',
        "APERTURE"@.len() == 8 && "APERTURE"@[0] == 'A',
{
    reveal_strlit("MARKER");
    reveal_strlit("DRIFT");
    reveal_strlit("MULTIPOLE");
    reveal_strlit("QUADRUPOLE");
    reveal_strlit("SBEND");
    reveal_strlit("RBEND");
    reveal_strlit("SEXTUPOLE");
    reveal_strlit("OCTUPOLE");
    reveal_strlit("WIRE");
    reveal_strlit("CAVITY");
    reveal_strlit("APERTURE");
}

/// Whether `r` stands for the outcome `m` of building an element.
pub open spec fn element_result(
    r: Option<Result<MadElement, UfoError>>,
    m: Option<Result<ElementModel, ErrorModel>>,
) -> bool {
    match m {
        None => r is None,
        Some(Ok(x)) => r matches Some(Ok(e)) && e@ == x,
        Some(Err(x)) => r matches Some(Err(e)) && e@ == x,
    }
}

/// Whether `a` and `b` hold the same characters.
pub fn text_eq(a: &str, b: &str) -> (r: bool)
    ensures
        r == (a@ == b@),
{
    let v = chars_of(a);
    let w = chars_of(b);
    assert(v@.subrange(0, v@.len() as int) =~= v@);
    crate::text::eq_range(v.as_slice(), 0, v.len(), w.as_slice())
}

/// A drift.
fn build_drift(label: &str, kind: &str, p: &LabelMap<MadValue>) -> (r: Option<Result<MadElement, UfoError>>)
    requires
        kind@ == "DRIFT"@,
    ensures
        element_result(r, build_element_spec(label@, kind@, model_map(p@))),
{
    proof {
        lemma_kind_names();
    }
    let length = match number_field(p, kind, "L") {
        Ok(t) => t,
        Err(e) => {
            return Some(Err(e));
        },
    };
    Some(Ok(MadElement::Drift { label: label.to_string(), length }))
}

/// A thin multipole.
fn build_multipole(label: &str, kind: &str, p: &LabelMap<MadValue>) -> (r: Option<Result<MadElement, UfoError>>)
    requires
        kind@ == "MULTIPOLE"@,
    ensures
        element_result(r, build_element_spec(label@, kind@, model_map(p@))),
{
    proof {
        lemma_kind_names();
    }
    let knl = match vector_field(p, kind, "KNL") {
        Ok(v) => v,
        Err(e) => {
            return Some(Err(e));
        },
    };
    let ksl = match vector_field(p, kind, "KSL") {
        Ok(v) => v,
        Err(e) => {
            return Some(Err(e));
        },
    };
    let dx = match number_field(p, kind, "DX") {
        Ok(t) => t,
        Err(e) => {
            return Some(Err(e));
        },
    };
    let dy = match number_field(p, kind, "DY") {
        Ok(t) => t,
        Err(e) => {
            return Some(Err(e));
        },
    };
    Some(Ok(MadElement::Multipole { label: label.to_string(), knl, ksl, dx, dy }))
}

/// A quadrupole.
fn build_quadrupole(label: &str, kind: &str, p: &LabelMap<MadValue>) -> (r: Option<Result<MadElement, UfoError>>)
    requires
        kind@ == "QUADRUPOLE"@,
    ensures
        element_result(r, build_element_spec(label@, kind@, model_map(p@))),
{
    proof {
        lemma_kind_names();
    }
    let length = match number_field(p, kind, "L") {
        Ok(t) => t,
        Err(e) => {
            return Some(Err(e));
        },
    };
    let k1 = match number_field(p, kind, "K1") {
        Ok(t) => t,
        Err(e) => {
            return Some(Err(e));
        },
    };
    let dx = match number_field(p, kind, "DX") {
        Ok(t) => t,
        Err(e) => {
            return Some(Err(e));
        },
    };
    let dy = match number_field(p, kind, "DY") {
        Ok(t) => t,
        Err(e) => {
            return Some(Err(e));
        },
    };
    let (dkn, dks) = match field_errors_of(p, kind) {
        None => {
            return None;
        },
        Some(Err(e)) => {
            return Some(Err(e));
        },
        Some(Ok(x)) => x,
    };
    Some(Ok(MadElement::Quadrupole { label: label.to_string(), length, k1, dx, dy, dkn, dks }))
}

/// A sector bend.
fn build_sbend(label: &str, kind: &str, p: &LabelMap<MadValue>) -> (r: Option<Result<MadElement, UfoError>>)
    requires
        kind@ == "SBEND"@,
    ensures
        element_result(r, build_element_spec(label@, kind@, model_map(p@))),
{
    proof {
        lemma_kind_names();
    }
    let length = match number_field(p, kind, "L") {
        Ok(t) => t,
        Err(e) => {
            return Some(Err(e));
        },
    };
    let angle = match number_field(p, kind, "ANGLE") {
        Ok(t) => t,
        Err(e) => {
            return Some(Err(e));
        },
    };
    let k1 = match number_field(p, kind, "K1") {
        Ok(t) => t,
        Err(e) => {
            return Some(Err(e));
        },
    };
    let e1 = match number_field(p, kind, "E1") {
        Ok(t) => t,
        Err(e) => {
            return Some(Err(e));
        },
    };
    let e2 = match number_field(p, kind, "E2") {
        Ok(t) => t,
        Err(e) => {
            return Some(Err(e));
        },
    };
    let hgap = match number_field(p, kind, "HGAP") {
        Ok(t) => t,
        Err(e) => {
            return Some(Err(e));
        },
    };
    let fint = match number_field(p, kind, "FINT") {
        Ok(t) => t,
        Err(e) => {
            return Some(Err(e));
        },
    };
    let dx = match number_field(p, kind, "DX") {
        Ok(t) => t,
        Err(e) => {
            return Some(Err(e));
        },
    };
    let dy = match number_field(p, kind, "DY") {
        Ok(t) => t,
        Err(e) => {
            return Some(Err(e));
        },
    };
    let (dkn, dks) = match field_errors_of(p, kind) {
        None => {
            return None;
        },
        Some(Err(e)) => {
            return Some(Err(e));
        },
        Some(Ok(x)) => x,
    };
    Some(Ok(MadElement::Sbend {
        label: label.to_string(),
        length,
        angle,
        k1,
        e1,
        e2,
        hgap,
        fint,
        dx,
        dy,
        dkn,
        dks,
    }))
}

/// A rectangular bend; its field errors are read first.
fn build_rbend(label: &str, kind: &str, p: &LabelMap<MadValue>) -> (r: Option<Result<MadElement, UfoError>>)
    requires
        kind@ == "RBEND"@,
    ensures
        element_result(r, build_element_spec(label@, kind@, model_map(p@))),
{
    proof {
        lemma_kind_names();
    }
    let (dkn, dks) = match field_errors_of(p, kind) {
        None => {
            return None;
        },
        Some(Err(e)) => {
            return Some(Err(e));
        },
        Some(Ok(x)) => x,
    };
    let length = match number_field(p, kind, "L") {
        Ok(t) => t,
        Err(e) => {
            return Some(Err(e));
        },
    };
    let angle = match number_field(p, kind, "ANGLE") {
        Ok(t) => t,
        Err(e) => {
            return Some(Err(e));
        },
    };
    let k1 = match number_field(p, kind, "K1") {
        Ok(t) => t,
        Err(e) => {
            return Some(Err(e));
        },
    };
    let e1 = match number_field(p, kind, "E1") {
        Ok(t) => t,
        Err(e) => {
            return Some(Err(e));
        },
    };
    let e2 = match number_field(p, kind, "E2") {
        Ok(t) => t,
        Err(e) => {
            return Some(Err(e));
        },
    };
    let hgap = match number_field(p, kind, "HGAP") {
        Ok(t) => t,
        Err(e) => {
            return Some(Err(e));
        },
    };
    let fint = match number_field(p, kind, "FINT") {
        Ok(t) => t,
        Err(e) => {
            return Some(Err(e));
        },
    };
    let dx = match number_field(p, kind, "DX") {
        Ok(t) => t,
        Err(e) => {
            return Some(Err(e));
        },
    };
    let dy = match number_field(p, kind, "DY") {
        Ok(t) => t,
        Err(e) => {
            return Some(Err(e));
        },
    };
    Some(Ok(MadElement::Rbend {
        label: label.to_string(),
        length,
        angle,
        k1,
        e1,
        e2,
        hgap,
        fint,
        dx,
        dy,
        dkn,
        dks,
    }))
}

/// A sextupole.
fn build_sextupole(label: &str, kind: &str, p: &LabelMap<MadValue>) -> (r: Option<Result<MadElement, UfoError>>)
    requires
        kind@ == "SEXTUPOLE"@,
    ensures
        element_result(r, build_element_spec(label@, kind@, model_map(p@))),
{
    proof {
        lemma_kind_names();
    }
    let length = match number_field(p, kind, "L") {
        Ok(t) => t,
        Err(e) => {
            return Some(Err(e));
        },
    };
    let k2 = match number_field(p, kind, "K2") {
        Ok(t) => t,
        Err(e) => {
            return Some(Err(e));
        },
    };
    let k2s = match number_field(p, kind, "K2S") {
        Ok(t) => t,
        Err(e) => {
            return Some(Err(e));
        },
    };
    let dx = match number_field(p, kind, "DX") {
        Ok(t) => t,
        Err(e) => {
            return Some(Err(e));
        },
    };
    let dy = match number_field(p, kind, "DY") {
        Ok(t) => t,
        Err(e) => {
            return Some(Err(e));
        },
    };
    let (dkn, dks) = match field_errors_of(p, kind) {
        None => {
            return None;
        },
        Some(Err(e)) => {
            return Some(Err(e));
        },
        Some(Ok(x)) => x,
    };
    Some(Ok(MadElement::Sextupole { label: label.to_string(), length, k2, k2s, dx, dy, dkn, dks }))
}

/// An octupole.
fn build_octupole(label: &str, kind: &str, p: &LabelMap<MadValue>) -> (r: Option<Result<MadElement, UfoError>>)
    requires
        kind@ == "OCTUPOLE"@,
    ensures
        element_result(r, build_element_spec(label@, kind@, model_map(p@))),
{
    proof {
        lemma_kind_names();
    }
    let length = match number_field(p, kind, "L") {
        Ok(t) => t,
        Err(e) => {
            return Some(Err(e));
        },
    };
    let k3 = match number_field(p, kind, "K3") {
        Ok(t) => t,
        Err(e) => {
            return Some(Err(e));
        },
    };
    let k3s = match number_field(p, kind, "K3S") {
        Ok(t) => t,
        Err(e) => {
            return Some(Err(e));
        },
    };
    let dx = match number_field(p, kind, "DX") {
        Ok(t) => t,
        Err(e) => {
            return Some(Err(e));
        },
    };
    let dy = match number_field(p, kind, "DY") {
        Ok(t) => t,
        Err(e) => {
            return Some(Err(e));
        },
    };
    let (dkn, dks) = match field_errors_of(p, kind) {
        None => {
            return None;
        },
        Some(Err(e)) => {
            return Some(Err(e));
        },
        Some(Ok(x)) => x,
    };
    Some(Ok(MadElement::Octupole { label: label.to_string(), length, k3, k3s, dx, dy, dkn, dks }))
}

/// A wire.
fn build_wire(label: &str, kind: &str, p: &LabelMap<MadValue>) -> (r: Option<Result<MadElement, UfoError>>)
    requires
        kind@ == "WIRE"@,
    ensures
        element_result(r, build_element_spec(label@, kind@, model_map(p@))),
{
    proof {
        lemma_kind_names();
    }
    let x = match number_field(p, kind, "X") {
        Ok(t) => t,
        Err(e) => {
            return Some(Err(e));
        },
    };
    let y = match number_field(p, kind, "Y") {
        Ok(t) => t,
        Err(e) => {
            return Some(Err(e));
        },
    };
    let k = match number_field(p, kind, "K") {
        Ok(t) => t,
        Err(e) => {
            return Some(Err(e));
        },
    };
    Some(Ok(MadElement::Wire { label: label.to_string(), x, y, k }))
}

/// An RF cavity.
fn build_cavity(label: &str, kind: &str, p: &LabelMap<MadValue>) -> (r: Option<Result<MadElement, UfoError>>)
    requires
        kind@ == "CAVITY"@,
    ensures
        element_result(r, build_element_spec(label@, kind@, model_map(p@))),
{
    proof {
        lemma_kind_names();
    }
    let field = match number_field(p, kind, "FIELD") {
        Ok(t) => t,
        Err(e) => {
            return Some(Err(e));
        },
    };
    let omega = match number_field(p, kind, "OMEGA") {
        Ok(t) => t,
        Err(e) => {
            return Some(Err(e));
        },
    };
    let lag = match number_field(p, kind, "LAG") {
        Ok(t) => t,
        Err(e) => {
            return Some(Err(e));
        },
    };
    Some(Ok(MadElement::Cavity { label: label.to_string(), field, omega, lag }))
}

/// An aperture.
fn build_aperture(label: &str, kind: &str, p: &LabelMap<MadValue>) -> (r: Option<Result<MadElement, UfoError>>)
    requires
        kind@ == "APERTURE"@,
    ensures
        element_result(r, build_element_spec(label@, kind@, model_map(p@))),
{
    proof {
        lemma_kind_names();
    }
    let window = match window_field(p, kind) {
        Ok(w) => w,
        Err(e) => {
            return Some(Err(e));
        },
    };
    let radius = match radius_field(p, kind) {
        Ok(r) => r,
        Err(e) => {
            return Some(Err(e));
        },
    };
    Some(Ok(MadElement::Aperture { label: label.to_string(), window, radius }))
}

/// The element that a definition of `label` with upper-case `kind` and parameters `p`
/// gives; `None` where a field error order is `usize::MAX`.
pub fn build_element(label: &str, kind: &str, p: &LabelMap<MadValue>) -> (r: Option<
    Result<MadElement, UfoError>,
>)
    ensures
        element_result(r, build_element_spec(label@, kind@, model_map(p@))),
{
    if text_eq(kind, "MARKER") {
        Some(Ok(MadElement::Marker(Marker { label: label.to_string() })))
    } else if text_eq(kind, "DRIFT") {
        build_drift(label, kind, p)
    } else if text_eq(kind, "MULTIPOLE") {
        build_multipole(label, kind, p)
    } else if text_eq(kind, "QUADRUPOLE") {
        build_quadrupole(label, kind, p)
    } else if text_eq(kind, "SBEND") {
        build_sbend(label, kind, p)
    } else if text_eq(kind, "RBEND") {
        build_rbend(label, kind, p)
    } else if text_eq(kind, "SEXTUPOLE") {
        build_sextupole(label, kind, p)
    } else if text_eq(kind, "OCTUPOLE") {
        build_octupole(label, kind, p)
    } else if text_eq(kind, "WIRE") {
        build_wire(label, kind, p)
    } else if text_eq(kind, "CAVITY") {
        build_cavity(label, kind, p)
    } else if text_eq(kind, "APERTURE") {
        build_aperture(label, kind, p)
    } else {
        Some(Err(UfoError::UnknownElementKind(kind.to_string())))
    }
}

} // verus!

verus! {

/// A definition of kind `CAVITY` gives a cavity exactly when each of `FIELD`, `OMEGA` and
/// `LAG` is absent or given as a number; the cavity then carries the definition's label,
/// and its field, angular frequency and phase lag are the numbers given for `FIELD`,
/// `OMEGA` and `LAG` respectively, each `"0"` when absent. Otherwise the first of those
/// parameters (in that order) that is given otherwise than as a number is reported.
pub proof fn lemma_cavity_from_parameters(label: Seq<char>, p: Map<Seq<char>, ValueModel>)
    ensures
        ({
            let r = build_element_spec(label, "CAVITY"@, p);
            let bad_field = p.contains_key("FIELD"@) && !(p["FIELD"@] is Number);
            let bad_omega = p.contains_key("OMEGA"@) && !(p["OMEGA"@] is Number);
            let bad_lag = p.contains_key("LAG"@) && !(p["LAG"@] is Number);
            &&& (!bad_field && !bad_omega && !bad_lag) <==> (r matches Some(Ok(_)))
            &&& (r matches Some(Ok(e)) ==> {
                &&& e matches ElementModel::Cavity { label: l, field, omega, lag }
                &&& l == label
                &&& (p.contains_key("FIELD"@) ==> p["FIELD"@] == ValueModel::Number(field))
                &&& (!p.contains_key("FIELD"@) ==> field == "0"@)
                &&& (p.contains_key("OMEGA"@) ==> p["OMEGA"@] == ValueModel::Number(omega))
                &&& (!p.contains_key("OMEGA"@) ==> omega == "0"@)
                &&& (p.contains_key("LAG"@) ==> p["LAG"@] == ValueModel::Number(lag))
                &&& (!p.contains_key("LAG"@) ==> lag == "0"@)
            })
            &&& bad_field ==> r == Some(
                Err::<ElementModel, ErrorModel>(
                    ErrorModel::ExpectedNumber { kind: "CAVITY"@, parameter: "FIELD"@ },
                ),
            )
            &&& (!bad_field && bad_omega) ==> r == Some(
                Err::<ElementModel, ErrorModel>(
                    ErrorModel::ExpectedNumber { kind: "CAVITY"@, parameter: "OMEGA"@ },
                ),
            )
            &&& (!bad_field && !bad_omega && bad_lag) ==> r == Some(
                Err::<ElementModel, ErrorModel>(
                    ErrorModel::ExpectedNumber { kind: "CAVITY"@, parameter: "LAG"@ },
                ),
            )
        }),
{
    lemma_kind_names();
}

} // verus!
