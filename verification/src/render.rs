//! A standalone rendering front door over the layout engine: a configuration
//! value instead of a browser, and a simpler hit-map that carries only what a
//! click needs.

use vstd::prelude::*;

use crate::ast::Document;
use crate::layout::{
    default_field_width, render_doc_spec, render_document_with, RenderedText, SpanV,
};
use crate::types::{FormState, FormStateV, HitboxV, hitboxes_view, Interactable, InteractableV};

verus! {

/// How to render: the viewport width, the width of fields that give none,
/// and the live form state, if any.
pub struct RenderConfig {
    pub width: u16,
    pub default_field_width: u16,
    pub form_state: Option<FormState>,
}

/// The form view a configuration supplies: its form state's, or empty.
pub open spec fn config_form(c: RenderConfig) -> FormStateV {
    match c.form_state {
        Some(fs) => fs@,
        None => FormStateV {
            fields: Map::empty(),
            checkboxes: Map::empty(),
            radios: Map::empty(),
            editing_field: None,
        },
    }
}

impl Default for RenderConfig {
    fn default() -> (r: RenderConfig)
        ensures
            r.width == 80,
            r.default_field_width == 24,
            r.form_state is None,
    {
        RenderConfig { width: 80, default_field_width: 24, form_state: None }
    }
}

/// What a hitbox points at, carrying only what acting on a click needs.
#[derive(Debug, Clone)]
pub enum HitboxTarget {
    Link { url: String },
    TextField { name: String, masked: bool },
    Checkbox { name: String },
    Radio { name: String, value: String },
}

/// View of a `HitboxTarget`.
pub enum HitboxTargetV {
    Link { url: Seq<char> },
    TextField { name: Seq<char>, masked: bool },
    Checkbox { name: Seq<char> },
    Radio { name: Seq<char>, value: Seq<char> },
}

impl View for HitboxTarget {
    type V = HitboxTargetV;

    open spec fn view(&self) -> HitboxTargetV {
        match self {
            HitboxTarget::Link { url } => (HitboxTargetV::Link { url: url@ }),
            HitboxTarget::TextField { name, masked } => (HitboxTargetV::TextField {
                name: name@,
                masked: *masked,
            }),
            HitboxTarget::Checkbox { name } => (HitboxTargetV::Checkbox { name: name@ }),
            HitboxTarget::Radio { name, value } => (HitboxTargetV::Radio {
                name: name@,
                value: value@,
            }),
        }
    }
}

/// The target of an interactable: field specifiers and defaults dropped.
pub open spec fn target_of(iv: InteractableV) -> HitboxTargetV {
    match iv {
        InteractableV::Link { url, .. } => HitboxTargetV::Link { url },
        InteractableV::TextField { name, masked, .. } => (HitboxTargetV::TextField {
            name,
            masked,
        }),
        InteractableV::Checkbox { name } => HitboxTargetV::Checkbox { name },
        InteractableV::Radio { name, value } => HitboxTargetV::Radio { name, value },
    }
}

/// One clickable rectangle: a row, a half-open column range and its target.
#[derive(Debug, Clone)]
pub struct Hitbox {
    pub line: usize,
    pub col_start: usize,
    pub col_end: usize,
    pub target: HitboxTarget,
}

/// View of this module's `Hitbox`.
pub struct CHitboxV {
    pub line: int,
    pub col_start: int,
    pub col_end: int,
    pub target: HitboxTargetV,
}

impl View for Hitbox {
    type V = CHitboxV;

    open spec fn view(&self) -> CHitboxV {
        CHitboxV {
            line: self.line as int,
            col_start: self.col_start as int,
            col_end: self.col_end as int,
            target: self.target@,
        }
    }
}

/// The views of this module's hitbox list.
pub open spec fn targets_view(hs: Seq<Hitbox>) -> Seq<CHitboxV> {
    Seq::new(hs.len(), |i: int| hs[i]@)
}

/// The engine's hitboxes reduced to targets.
pub open spec fn reduce_hitboxes(hs: Seq<HitboxV>) -> Seq<CHitboxV> {
    Seq::new(
        hs.len(),
        |i: int|
            CHitboxV {
                line: hs[i].line,
                col_start: hs[i].col_start,
                col_end: hs[i].col_end,
                target: target_of(hs[i].interactable),
            },
    )
}

/// Rendered text together with its hit-map.
pub struct RenderOutput {
    pub text: RenderedText,
    pub hitboxes: Vec<Hitbox>,
}

/// Renders a document with the configuration's width, field width and form
/// state, keeping the hit-map.
pub fn render_with_hitboxes(doc: &Document, config: &RenderConfig) -> (r: RenderOutput)
    ensures
        ({
            let sp = render_doc_spec(
                doc@,
                config.width,
                config_form(*config),
                None,
                config.default_field_width as nat,
            );
            r.text@ == sp.0 && targets_view(r.hitboxes@) == reduce_hitboxes(sp.1)
        }),
{
    let empty_form = FormState::new();
    let fs: &FormState = match &config.form_state {
        Some(f) => f,
        None => &empty_form,
    };
    proof {
        if config.form_state is None {
            assert(fs@ == config_form(*config));
        }
    }
    let out = render_document_with(doc, config.width, fs, None, config.default_field_width);
    let mut hitboxes: Vec<Hitbox> = Vec::new();
    let mut i: usize = 0;
    let ghost full = hitboxes_view(out.hitboxes@);
    proof {
        assert(targets_view(hitboxes@) =~= reduce_hitboxes(full).take(0));
    }
    while i < out.hitboxes.len()
        invariant
            i <= out.hitboxes@.len(),
            full == hitboxes_view(out.hitboxes@),
            targets_view(hitboxes@) == reduce_hitboxes(full).take(i as int),
        decreases out.hitboxes@.len() - i,
    {
        let h = &out.hitboxes[i];
        let target = match &h.interactable {
            Interactable::Link { url, .. } => HitboxTarget::Link { url: url.clone() },
            Interactable::TextField { name, masked, .. } => HitboxTarget::TextField {
                name: name.clone(),
                masked: *masked,
            },
            Interactable::Checkbox { name } => HitboxTarget::Checkbox { name: name.clone() },
            Interactable::Radio { name, value } => HitboxTarget::Radio {
                name: name.clone(),
                value: value.clone(),
            },
        };
        let ghost prev = targets_view(hitboxes@);
        let ghost newv = CHitboxV {
            line: h.line as int,
            col_start: h.col_start as int,
            col_end: h.col_end as int,
            target: target@,
        };
        proof {
            assert(full[i as int].interactable == h.interactable@);
            assert(target@ == target_of(full[i as int].interactable));
            assert(newv == reduce_hitboxes(full)[i as int]);
        }
        hitboxes.push(
            Hitbox { line: h.line, col_start: h.col_start, col_end: h.col_end, target },
        );
        i = i + 1;
        proof {
            assert(targets_view(hitboxes@) =~= prev.push(newv));
            assert(prev.push(newv) =~= reduce_hitboxes(full).take(i as int));
        }
    }
    proof {
        assert(reduce_hitboxes(full).take(full.len() as int) =~= reduce_hitboxes(full));
    }
    RenderOutput { text: out.content, hitboxes }
}

/// Renders a document, discarding the hit-map.
pub fn render(doc: &Document, config: &RenderConfig) -> (r: RenderedText)
    ensures
        r@ == render_doc_spec(
            doc@,
            config.width,
            config_form(*config),
            None,
            config.default_field_width as nat,
        ).0,
{
    render_with_hitboxes(doc, config).text
}

} // verus!
