//! Lattice elements as a MAD file defines them, with every number kept as its text.
use vstd::prelude::*;

use crate::syntax::texts;

verus! {

/// A marker: an element that only names a position.
#[derive(Clone, Debug, PartialEq)]
pub struct Marker {
    pub label: String,
}

/// The aperture window parameter: a name given as a string, or a number.
#[derive(Clone, Debug)]
pub enum WindowDef {
    Text(String),
    Number(String),
}

/// An element as a MAD definition gives it. Each number is the text of a decimal number
/// that `f64::from_str` accepts; missing numbers are `"0"`.
#[derive(Clone, Debug)]
pub enum MadElement {
    Marker(Marker),
    Drift { label: String, length: String },
    Multipole { label: String, knl: Vec<String>, ksl: Vec<String>, dx: String, dy: String },
    Quadrupole {
        label: String,
        length: String,
        k1: String,
        dx: String,
        dy: String,
        dkn: Vec<String>,
        dks: Vec<String>,
    },
    Sbend {
        label: String,
        length: String,
        angle: String,
        k1: String,
        e1: String,
        e2: String,
        hgap: String,
        fint: String,
        dx: String,
        dy: String,
        dkn: Vec<String>,
        dks: Vec<String>,
    },
    Rbend {
        label: String,
        length: String,
        angle: String,
        k1: String,
        e1: String,
        e2: String,
        hgap: String,
        fint: String,
        dx: String,
        dy: String,
        dkn: Vec<String>,
        dks: Vec<String>,
    },
    Sextupole {
        label: String,
        length: String,
        k2: String,
        k2s: String,
        dx: String,
        dy: String,
        dkn: Vec<String>,
        dks: Vec<String>,
    },
    Octupole {
        label: String,
        length: String,
        k3: String,
        k3s: String,
        dx: String,
        dy: String,
        dkn: Vec<String>,
        dks: Vec<String>,
    },
    Wire { label: String, x: String, y: String, k: String },
    Cavity { label: String, field: String, omega: String, lag: String },
    Aperture { label: String, window: WindowDef, radius: Option<String> },
}

/// The content of a [`WindowDef`].
pub enum WindowModel {
    Text(Seq<char>),
    Number(Seq<char>),
}

/// The content of a [`MadElement`], with texts as character sequences.
pub enum ElementModel {
    Marker { label: Seq<char> },
    Drift { label: Seq<char>, length: Seq<char> },
    Multipole {
        label: Seq<char>,
        knl: Seq<Seq<char>>,
        ksl: Seq<Seq<char>>,
        dx: Seq<char>,
        dy: Seq<char>,
    },
    Quadrupole {
        label: Seq<char>,
        length: Seq<char>,
        k1: Seq<char>,
        dx: Seq<char>,
        dy: Seq<char>,
        dkn: Seq<Seq<char>>,
        dks: Seq<Seq<char>>,
    },
    Sbend {
        label: Seq<char>,
        length: Seq<char>,
        angle: Seq<char>,
        k1: Seq<char>,
        e1: Seq<char>,
        e2: Seq<char>,
        hgap: Seq<char>,
        fint: Seq<char>,
        dx: Seq<char>,
        dy: Seq<char>,
        dkn: Seq<Seq<char>>,
        dks: Seq<Seq<char>>,
    },
    Rbend {
        label: Seq<char>,
        length: Seq<char>,
        angle: Seq<char>,
        k1: Seq<char>,
        e1: Seq<char>,
        e2: Seq<char>,
        hgap: Seq<char>,
        fint: Seq<char>,
        dx: Seq<char>,
        dy: Seq<char>,
        dkn: Seq<Seq<char>>,
        dks: Seq<Seq<char>>,
    },
    Sextupole {
        label: Seq<char>,
        length: Seq<char>,
        k2: Seq<char>,
        k2s: Seq<char>,
        dx: Seq<char>,
        dy: Seq<char>,
        dkn: Seq<Seq<char>>,
        dks: Seq<Seq<char>>,
    },
    Octupole {
        label: Seq<char>,
        length: Seq<char>,
        k3: Seq<char>,
        k3s: Seq<char>,
        dx: Seq<char>,
        dy: Seq<char>,
        dkn: Seq<Seq<char>>,
        dks: Seq<Seq<char>>,
    },
    Wire { label: Seq<char>, x: Seq<char>, y: Seq<char>, k: Seq<char> },
    Cavity { label: Seq<char>, field: Seq<char>, omega: Seq<char>, lag: Seq<char> },
    Aperture { label: Seq<char>, window: WindowModel, radius: Option<Seq<char>> },
}

impl View for WindowDef {
    type V = WindowModel;

    open spec fn view(&self) -> WindowModel {
        match self {
            WindowDef::Text(t) => WindowModel::Text(t@),
            WindowDef::Number(t) => WindowModel::Number(t@),
        }
    }
}

impl View for MadElement {
    type V = ElementModel;

    open spec fn view(&self) -> ElementModel {
        match self {
            MadElement::Marker(m) => ElementModel::Marker { label: m.label@ },
            MadElement::Drift { label, length } => ElementModel::Drift {
                label: label@,
                length: length@,
            },
            MadElement::Multipole { label, knl, ksl, dx, dy } => ElementModel::Multipole {
                label: label@,
                knl: texts(knl@),
                ksl: texts(ksl@),
                dx: dx@,
                dy: dy@,
            },
            MadElement::Quadrupole { label, length, k1, dx, dy, dkn, dks } =>
                ElementModel::Quadrupole {
                label: label@,
                length: length@,
                k1: k1@,
                dx: dx@,
                dy: dy@,
                dkn: texts(dkn@),
                dks: texts(dks@),
            },
            MadElement::Sbend { label, length, angle, k1, e1, e2, hgap, fint, dx, dy, dkn, dks } =>
                ElementModel::Sbend {
                label: label@,
                length: length@,
                angle: angle@,
                k1: k1@,
                e1: e1@,
                e2: e2@,
                hgap: hgap@,
                fint: fint@,
                dx: dx@,
                dy: dy@,
                dkn: texts(dkn@),
                dks: texts(dks@),
            },
            MadElement::Rbend { label, length, angle, k1, e1, e2, hgap, fint, dx, dy, dkn, dks } =>
                ElementModel::Rbend {
                label: label@,
                length: length@,
                angle: angle@,
                k1: k1@,
                e1: e1@,
                e2: e2@,
                hgap: hgap@,
                fint: fint@,
                dx: dx@,
                dy: dy@,
                dkn: texts(dkn@),
                dks: texts(dks@),
            },
            MadElement::Sextupole { label, length, k2, k2s, dx, dy, dkn, dks } =>
                ElementModel::Sextupole {
                label: label@,
                length: length@,
                k2: k2@,
                k2s: k2s@,
                dx: dx@,
                dy: dy@,
                dkn: texts(dkn@),
                dks: texts(dks@),
            },
            MadElement::Octupole { label, length, k3, k3s, dx, dy, dkn, dks } =>
                ElementModel::Octupole {
                label: label@,
                length: length@,
                k3: k3@,
                k3s: k3s@,
                dx: dx@,
                dy: dy@,
                dkn: texts(dkn@),
                dks: texts(dks@),
            },
            MadElement::Wire { label, x, y, k } => ElementModel::Wire {
                label: label@,
                x: x@,
                y: y@,
                k: k@,
            },
            MadElement::Cavity { label, field, omega, lag } => ElementModel::Cavity {
                label: label@,
                field: field@,
                omega: omega@,
                lag: lag@,
            },
            MadElement::Aperture { label, window, radius } => ElementModel::Aperture {
                label: label@,
                window: window@,
                radius: match radius {
                    Some(r) => Some(r@),
                    None => None,
                },
            },
        }
    }
}

/// The label of an element.
pub open spec fn model_label(e: ElementModel) -> Seq<char> {
    match e {
        ElementModel::Marker { label } => label,
        ElementModel::Drift { label, .. } => label,
        ElementModel::Multipole { label, .. } => label,
        ElementModel::Quadrupole { label, .. } => label,
        ElementModel::Sbend { label, .. } => label,
        ElementModel::Rbend { label, .. } => label,
        ElementModel::Sextupole { label, .. } => label,
        ElementModel::Octupole { label, .. } => label,
        ElementModel::Wire { label, .. } => label,
        ElementModel::Cavity { label, .. } => label,
        ElementModel::Aperture { label, .. } => label,
    }
}

impl MadElement {
    /// The label of the element.
    pub fn label(&self) -> (r: &str)
        ensures
            r@ == model_label(self@),
    {
        match self {
            MadElement::Marker(m) => m.label.as_str(),
            MadElement::Drift { label, .. } => label.as_str(),
            MadElement::Multipole { label, .. } => label.as_str(),
            MadElement::Quadrupole { label, .. } => label.as_str(),
            MadElement::Sbend { label, .. } => label.as_str(),
            MadElement::Rbend { label, .. } => label.as_str(),
            MadElement::Sextupole { label, .. } => label.as_str(),
            MadElement::Octupole { label, .. } => label.as_str(),
            MadElement::Wire { label, .. } => label.as_str(),
            MadElement::Cavity { label, .. } => label.as_str(),
            MadElement::Aperture { label, .. } => label.as_str(),
        }
    }
}

} // verus!
