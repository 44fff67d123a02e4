//! The browsing engine's data: live form state, the hit-map the layout
//! engine emits, and the values an interaction returns.

use vstd::prelude::*;

use crate::strmap::StrMap;

verus! {

/// The live values of the current document's form controls, plus the name of
/// the text field being edited, if any.
#[derive(Debug)]
pub struct FormState {
    pub fields: StrMap<String>,
    pub checkboxes: StrMap<bool>,
    pub radios: StrMap<String>,
    pub editing_field: Option<String>,
}

/// View of a `FormState`.
pub struct FormStateV {
    pub fields: Map<Seq<char>, Seq<char>>,
    pub checkboxes: Map<Seq<char>, bool>,
    pub radios: Map<Seq<char>, Seq<char>>,
    pub editing_field: Option<Seq<char>>,
}

impl View for FormState {
    type V = FormStateV;

    open spec fn view(&self) -> FormStateV {
        FormStateV {
            fields: self.fields@,
            checkboxes: self.checkboxes@,
            radios: self.radios@,
            editing_field: match self.editing_field {
                Some(ref s) => Some(s@),
                None => None,
            },
        }
    }
}

impl FormState {
    /// A form state with no values at all.
    pub fn new() -> (r: FormState)
        ensures
            r@.fields == Map::<Seq<char>, Seq<char>>::empty(),
            r@.checkboxes == Map::<Seq<char>, bool>::empty(),
            r@.radios == Map::<Seq<char>, Seq<char>>::empty(),
            r@.editing_field is None,
            r.fields.kvs() == Seq::<(Seq<char>, Seq<char>)>::empty(),
            r.checkboxes.kvs() == Seq::<(Seq<char>, bool)>::empty(),
            r.radios.kvs() == Seq::<(Seq<char>, Seq<char>)>::empty(),
    {
        FormState {
            fields: StrMap::new(),
            checkboxes: StrMap::new(),
            radios: StrMap::new(),
            editing_field: None,
        }
    }
}

impl Default for FormState {
    fn default() -> (r: FormState)
        ensures
            r@.fields == Map::<Seq<char>, Seq<char>>::empty(),
            r@.checkboxes == Map::<Seq<char>, bool>::empty(),
            r@.radios == Map::<Seq<char>, Seq<char>>::empty(),
            r@.editing_field is None,
    {
        FormState::new()
    }
}

/// Anything a user can select and activate, carrying what acting on it
/// needs without consulting the document again.
#[derive(Debug, Clone)]
pub enum Interactable {
    Link { url: String, fields: Vec<String> },
    TextField { name: String, masked: bool, default: String },
    Checkbox { name: String },
    Radio { name: String, value: String },
}

/// View of an `Interactable`.
pub enum InteractableV {
    Link { url: Seq<char>, fields: Seq<Seq<char>> },
    TextField { name: Seq<char>, masked: bool, default: Seq<char> },
    Checkbox { name: Seq<char> },
    Radio { name: Seq<char>, value: Seq<char> },
}

impl View for Interactable {
    type V = InteractableV;

    open spec fn view(&self) -> InteractableV {
        match self {
            Interactable::Link { url, fields } => (InteractableV::Link {
                url: url@,
                fields: fields.deep_view(),
            }),
            Interactable::TextField { name, masked, default } => (InteractableV::TextField {
                name: name@,
                masked: *masked,
                default: default@,
            }),
            Interactable::Checkbox { name } => (InteractableV::Checkbox { name: name@ }),
            Interactable::Radio { name, value } => (InteractableV::Radio {
                name: name@,
                value: value@,
            }),
        }
    }
}

/// One clickable rectangle of the rendered output: a row, a half-open column
/// range, the interactable it belongs to and that interactable's logical
/// index, shared by every fragment of a wrapped element.
#[derive(Debug, Clone)]
pub struct Hitbox {
    pub line: usize,
    pub col_start: usize,
    pub col_end: usize,
    pub interactable: Interactable,
    pub interactable_idx: usize,
}

/// View of a `Hitbox`.
pub struct HitboxV {
    pub line: int,
    pub col_start: int,
    pub col_end: int,
    pub interactable: InteractableV,
    pub interactable_idx: int,
}

impl View for Hitbox {
    type V = HitboxV;

    open spec fn view(&self) -> HitboxV {
        HitboxV {
            line: self.line as int,
            col_start: self.col_start as int,
            col_end: self.col_end as int,
            interactable: self.interactable@,
            interactable_idx: self.interactable_idx as int,
        }
    }
}

/// The views of a hitbox list.
pub open spec fn hitboxes_view(hs: Seq<Hitbox>) -> Seq<HitboxV> {
    Seq::new(hs.len(), |i: int| hs[i]@)
}

/// What following a link yields: its target and the collected form data.
#[derive(Debug)]
pub struct Link {
    pub url: String,
    pub fields: Vec<String>,
    pub form_data: StrMap<String>,
}

/// An edit request for a text field: its name, current value, and whether
/// its display is masked.
#[derive(Debug, Clone)]
pub struct TextField {
    pub name: String,
    pub value: String,
    pub masked: bool,
}

/// A high-level action the browser hands back to its host.
#[derive(Debug)]
pub enum Interaction {
    Link(Link),
    EditField(TextField),
}

/// Whether a key event was used up by the browser.
#[derive(Debug, Clone, Copy, PartialEq, Eq)]
pub enum InputResult {
    Consumed,
    Ignored,
}

} // verus!
