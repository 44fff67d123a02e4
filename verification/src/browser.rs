//! The browser state machine: navigation history, form state, selection and
//! the render cache. It parses content, feeds the document and form state to
//! a host-supplied renderer, and answers clicks and key-driven focus changes
//! with high-level actions. Every operation is total: empty stacks, empty
//! documents and out-of-range indices degrade to no-ops.

use vstd::prelude::*;

use crate::ast::Document;
use crate::layout::RenderOutput;
use crate::parser::parse;
use crate::strmap::{map_of, StrMap};
use crate::strutil::{find_from, push_char, str_chars, str_eq, string_from_chars};
use crate::types::{FormState, Hitbox, HitboxV, hitboxes_view, Interactable, InteractableV, InputResult, Link};

verus! {

/// A navigation snapshot: url, raw content, and the scroll position the page
/// was left at.
#[derive(Debug)]
struct HistoryEntry {
    url: String,
    content: String,
    scroll: u16,
}

/// View of a history entry.
pub struct HistV {
    pub url: Seq<char>,
    pub content: Seq<char>,
    pub scroll: u16,
}

impl View for HistoryEntry {
    type V = HistV;

    closed spec fn view(&self) -> HistV {
        HistV { url: self.url@, content: self.content@, scroll: self.scroll }
    }
}

/// What a renderer must do: turn a document, a width, form state and the
/// selected interactable index into output for its backend, a hit-map and a
/// height. Supplied by the host; the browser assumes nothing about it.
pub trait Renderer {
    type Output;

    fn render(
        &self,
        doc: &Document,
        width: u16,
        form_state: &FormState,
        selected: Option<usize>,
    ) -> RenderOutput<Self::Output>;
}

/// The browser's whole observable state: navigation, selection, form state
/// (as entry sequences, their maps being `map_of` of them), the hit-map, and
/// the render-cache bookkeeping.
pub struct BrowserV {
    pub url: Option<Seq<char>>,
    pub content: Option<Seq<char>>,
    pub scroll: u16,
    pub back: Seq<HistV>,
    pub forward: Seq<HistV>,
    pub selected: int,
    pub hitboxes: Seq<HitboxV>,
    pub fields_kvs: Seq<(Seq<char>, Seq<char>)>,
    pub checks_kvs: Seq<(Seq<char>, bool)>,
    pub radios_kvs: Seq<(Seq<char>, Seq<char>)>,
    pub editing: Option<int>,
    pub width: u16,
    pub height: u16,
    pub content_height: u16,
    pub dirty: bool,
    pub has_cache: bool,
}

/// Whether an entry sequence has a key.
pub open spec fn kvs_has<T>(s: Seq<(Seq<char>, T)>, k: Seq<char>) -> bool {
    exists|i: int| 0 <= i < s.len() && (#[trigger] s[i]).0 == k
}

/// Seeding form defaults from the hit-map, in hit-map order: a text field
/// contributes its default, a checkbox false, a radio its value — each only
/// for a name not seen before.
pub open spec fn seed_forms(
    f: Seq<(Seq<char>, Seq<char>)>,
    c: Seq<(Seq<char>, bool)>,
    r: Seq<(Seq<char>, Seq<char>)>,
    hs: Seq<HitboxV>,
    i: int,
) -> (Seq<(Seq<char>, Seq<char>)>, Seq<(Seq<char>, bool)>, Seq<(Seq<char>, Seq<char>)>)
    decreases hs.len() - i,
{
    if i < 0 || i >= hs.len() {
        (f, c, r)
    } else {
        match hs[i].interactable {
            InteractableV::TextField { name, default, .. } => seed_forms(
                if kvs_has(f, name) {
                    f
                } else {
                    f.push((name, default))
                },
                c,
                r,
                hs,
                i + 1,
            ),
            InteractableV::Checkbox { name } => seed_forms(
                f,
                if kvs_has(c, name) {
                    c
                } else {
                    c.push((name, false))
                },
                r,
                hs,
                i + 1,
            ),
            InteractableV::Radio { name, value } => seed_forms(
                f,
                c,
                if kvs_has(r, name) {
                    r
                } else {
                    r.push((name, value))
                },
                hs,
                i + 1,
            ),
            InteractableV::Link { .. } => seed_forms(f, c, r, hs, i + 1),
        }
    }
}

/// Whether a field name is requested by a bare specifier: it appears as a
/// spec of its own, is not the wildcard, and holds no `=`.
pub open spec fn is_requested(specs: Seq<Seq<char>>, name: Seq<char>) -> bool {
    &&& exists|i: int| 0 <= i < specs.len() && (#[trigger] specs[i]) == name
    &&& name != seq!['*']
    &&& !crate::serialize::seq_contains(name, '=')
}

/// Whether the wildcard specifier occurs.
pub open spec fn has_wildcard(specs: Seq<Seq<char>>) -> bool {
    exists|i: int| 0 <= i < specs.len() && (#[trigger] specs[i]) == seq!['*']
}

/// The `name=literal` contributions of the specifiers, in order.
pub open spec fn literal_data(
    specs: Seq<Seq<char>>,
    i: int,
    data: Map<Seq<char>, Seq<char>>,
) -> Map<Seq<char>, Seq<char>>
    decreases specs.len() - i,
{
    if i < 0 || i >= specs.len() {
        data
    } else {
        let s = specs[i];
        let p = find_from(s, 0, '=');
        let data1 = if p < s.len() {
            data.insert(s.subrange(0, p), s.subrange(p + 1, s.len() as int))
        } else {
            data
        };
        literal_data(specs, i + 1, data1)
    }
}

/// The text-field contributions: every known field when the wildcard is
/// present, else the requested ones.
pub open spec fn fields_data(
    specs: Seq<Seq<char>>,
    kvs: Seq<(Seq<char>, Seq<char>)>,
    i: int,
    data: Map<Seq<char>, Seq<char>>,
) -> Map<Seq<char>, Seq<char>>
    decreases kvs.len() - i,
{
    if i < 0 || i >= kvs.len() {
        data
    } else {
        let kv = kvs[i];
        let data1 = if has_wildcard(specs) || is_requested(specs, kv.0) {
            data.insert(kv.0, kv.1)
        } else {
            data
        };
        fields_data(specs, kvs, i + 1, data1)
    }
}

/// The checkbox contributions: a checked checkbox contributes `1`.
pub open spec fn checks_data(
    specs: Seq<Seq<char>>,
    kvs: Seq<(Seq<char>, bool)>,
    i: int,
    data: Map<Seq<char>, Seq<char>>,
) -> Map<Seq<char>, Seq<char>>
    decreases kvs.len() - i,
{
    if i < 0 || i >= kvs.len() {
        data
    } else {
        let kv = kvs[i];
        let data1 = if kv.1 && (has_wildcard(specs) || is_requested(specs, kv.0)) {
            data.insert(kv.0, seq!['1'])
        } else {
            data
        };
        checks_data(specs, kvs, i + 1, data1)
    }
}

/// The radio contributions: a group's current selection.
pub open spec fn radios_data(
    specs: Seq<Seq<char>>,
    kvs: Seq<(Seq<char>, Seq<char>)>,
    i: int,
    data: Map<Seq<char>, Seq<char>>,
) -> Map<Seq<char>, Seq<char>>
    decreases kvs.len() - i,
{
    if i < 0 || i >= kvs.len() {
        data
    } else {
        let kv = kvs[i];
        let data1 = if has_wildcard(specs) || is_requested(specs, kv.0) {
            data.insert(kv.0, kv.1)
        } else {
            data
        };
        radios_data(specs, kvs, i + 1, data1)
    }
}

/// The form data a link's field specifiers collect: literal pairs first,
/// then field values, then checked checkboxes as `1`, then radio selections;
/// nothing at all when the link has no specifiers.
pub open spec fn collect_spec(
    specs: Seq<Seq<char>>,
    fields: Seq<(Seq<char>, Seq<char>)>,
    checks: Seq<(Seq<char>, bool)>,
    radios: Seq<(Seq<char>, Seq<char>)>,
) -> Map<Seq<char>, Seq<char>> {
    if specs.len() == 0 {
        Map::empty()
    } else {
        radios_data(
            specs,
            radios,
            0,
            checks_data(specs, checks, 0, fields_data(specs, fields, 0, literal_data(specs, 0, Map::empty()))),
        )
    }
}

/// The scroll position that brings a row into a viewport of the given
/// height, moving as little as possible.
pub open spec fn visible_scroll(scroll: u16, height: u16, line: int) -> u16 {
    let l16: u16 = if line <= u16::MAX {
        line as u16
    } else {
        u16::MAX
    };
    if l16 < scroll {
        l16
    } else if l16 >= scroll + height {
        let base: u16 = if l16 >= height {
            (l16 - height) as u16
        } else {
            0
        };
        if base < u16::MAX {
            (base + 1) as u16
        } else {
            u16::MAX
        }
    } else {
        scroll
    }
}

/// The view of a followed link.
pub struct LinkFollowV {
    pub url: Seq<char>,
    pub fields: Seq<Seq<char>>,
    pub form_data: Map<Seq<char>, Seq<char>>,
}

impl View for Link {
    type V = LinkFollowV;

    open spec fn view(&self) -> LinkFollowV {
        LinkFollowV {
            url: self.url@,
            fields: self.fields.deep_view(),
            form_data: self.form_data@,
        }
    }
}

/// The first hitbox containing a document position, if any.
pub open spec fn hit_at(hs: Seq<HitboxV>, i: int, x: int, y: int) -> Option<int>
    decreases hs.len() - i,
{
    if i < 0 || i >= hs.len() {
        None
    } else if hs[i].line == y && hs[i].col_start <= x < hs[i].col_end {
        Some(i)
    } else {
        hit_at(hs, i + 1, x, y)
    }
}

/// The browser: navigation state, form state, selection, and a cache of the
/// renderer's last output, rebuilt when content or width change and
/// re-rendered when only the visuals are stale.
pub struct Browser<R: Renderer> {
    url: Option<String>,
    content: Option<String>,
    scroll: u16,
    back_stack: Vec<HistoryEntry>,
    forward_stack: Vec<HistoryEntry>,
    selected: usize,
    hitboxes: Vec<Hitbox>,
    field_values: StrMap<String>,
    checkbox_states: StrMap<bool>,
    radio_states: StrMap<String>,
    editing_field: Option<usize>,
    width: u16,
    height: u16,
    content_height: u16,
    renderer: R,
    cached_output: Option<R::Output>,
    render_dirty: bool,
}

impl<R: Renderer> View for Browser<R> {
    type V = BrowserV;

    closed spec fn view(&self) -> BrowserV {
        BrowserV {
            url: match self.url {
                Some(ref s) => Some(s@),
                None => None,
            },
            content: match self.content {
                Some(ref s) => Some(s@),
                None => None,
            },
            scroll: self.scroll,
            back: Seq::new(self.back_stack@.len(), |i: int| self.back_stack@[i]@),
            forward: Seq::new(self.forward_stack@.len(), |i: int| self.forward_stack@[i]@),
            selected: self.selected as int,
            hitboxes: hitboxes_view(self.hitboxes@),
            fields_kvs: self.field_values.kvs(),
            checks_kvs: self.checkbox_states.kvs(),
            radios_kvs: self.radio_states.kvs(),
            editing: match self.editing_field {
                Some(i) => Some(i as int),
                None => None,
            },
            width: self.width,
            height: self.height,
            content_height: self.content_height,
            dirty: self.render_dirty,
            has_cache: self.cached_output is Some,
        }
    }
}

impl<R: Renderer> Browser<R> {
    /// A fresh browser around a renderer: nothing loaded, an 80 by 24
    /// viewport, empty history and form state.
    pub fn new(renderer: R) -> (r: Browser<R>)
        ensures
            r@ == (BrowserV {
                url: None,
                content: None,
                scroll: 0,
                back: Seq::empty(),
                forward: Seq::empty(),
                selected: 0,
                hitboxes: Seq::empty(),
                fields_kvs: Seq::empty(),
                checks_kvs: Seq::empty(),
                radios_kvs: Seq::empty(),
                editing: None,
                width: 80,
                height: 24,
                content_height: 0,
                dirty: false,
                has_cache: false,
            }),
    {
        let r = Browser {
            url: None,
            content: None,
            scroll: 0,
            back_stack: Vec::new(),
            forward_stack: Vec::new(),
            selected: 0,
            hitboxes: Vec::new(),
            field_values: StrMap::new(),
            checkbox_states: StrMap::new(),
            radio_states: StrMap::new(),
            editing_field: None,
            width: 80,
            height: 24,
            content_height: 0,
            renderer,
            cached_output: None,
            render_dirty: false,
        };
        proof {
            assert(r@.back =~= Seq::<HistV>::empty());
            assert(r@.forward =~= Seq::<HistV>::empty());
            assert(r@.hitboxes =~= Seq::<HitboxV>::empty());
        }
        r
    }

    /// The current page's url.
    pub fn url(&self) -> (r: Option<&str>)
        ensures
            match r {
                Some(s) => self@.url == Some(s@),
                None => self@.url is None,
            },
    {
        match &self.url {
            Some(s) => Some(s.as_str()),
            None => None,
        }
    }

    /// Whether a page is loaded.
    pub fn has_content(&self) -> (r: bool)
        ensures
            r == (self@.content is Some),
    {
        self.content.is_some()
    }

    /// Whether there is a page to go back to.
    pub fn can_go_back(&self) -> (r: bool)
        ensures
            r == (self@.back.len() > 0),
    {
        self.back_stack.len() > 0
    }

    /// Whether there is a page to go forward to.
    pub fn can_go_forward(&self) -> (r: bool)
        ensures
            r == (self@.forward.len() > 0),
    {
        self.forward_stack.len() > 0
    }

    /// The current scroll offset.
    pub fn scroll(&self) -> (r: u16)
        ensures
            r == self@.scroll,
    {
        self.scroll
    }

    /// Whether a text field edit is in progress.
    pub fn is_editing(&self) -> (r: bool)
        ensures
            r == (self@.editing is Some),
    {
        self.editing_field.is_some()
    }

    /// The current form state: a copy of the live values, and the name of
    /// the field being edited.
    pub fn form_state(&self) -> (r: FormState)
        ensures
            r.fields.kvs() == self@.fields_kvs,
            r.checkboxes.kvs() == self@.checks_kvs,
            r.radios.kvs() == self@.radios_kvs,
            r@.fields == map_of(self@.fields_kvs),
            r@.checkboxes == map_of(self@.checks_kvs),
            r@.radios == map_of(self@.radios_kvs),
            r@.editing_field == (match self@.editing {
                Some(i) => if 0 <= i < self@.hitboxes.len() {
                    match self@.hitboxes[i].interactable {
                        InteractableV::TextField { name, .. } => Some(name),
                        _ => None,
                    }
                } else {
                    None
                },
                None => None::<Seq<char>>,
            }),
    {
        let editing_field: Option<String> = match self.editing_field {
            Some(idx) => {
                if idx < self.hitboxes.len() {
                    match &self.hitboxes[idx].interactable {
                        Interactable::TextField { name, .. } => Some(name.clone()),
                        _ => None,
                    }
                } else {
                    None
                }
            },
            None => None,
        };
        FormState {
            fields: self.field_values.clone_map(),
            checkboxes: self.checkbox_states.clone_map(),
            radios: self.radio_states.clone_map(),
            editing_field,
        }
    }

    /// Seeds form defaults from the hit-map: text fields their default,
    /// checkboxes false, radio groups their first-seen value — without
    /// touching names that already have values.
    fn seed_from_hitboxes(&mut self)
        ensures
            ({
                let seeded = seed_forms(
                    old(self)@.fields_kvs,
                    old(self)@.checks_kvs,
                    old(self)@.radios_kvs,
                    old(self)@.hitboxes,
                    0,
                );
                final(self)@ == (BrowserV {
                    fields_kvs: seeded.0,
                    checks_kvs: seeded.1,
                    radios_kvs: seeded.2,
                    ..old(self)@
                })
            }),
    {
        let ghost hs = self@.hitboxes;
        let mut i: usize = 0;
        while i < self.hitboxes.len()
            invariant
                i <= self.hitboxes@.len(),
                hs == self@.hitboxes,
                seed_forms(
                    old(self)@.fields_kvs,
                    old(self)@.checks_kvs,
                    old(self)@.radios_kvs,
                    hs,
                    0,
                ) == seed_forms(
                    self@.fields_kvs,
                    self@.checks_kvs,
                    self@.radios_kvs,
                    hs,
                    i as int,
                ),
                self@ == (BrowserV {
                    fields_kvs: self@.fields_kvs,
                    checks_kvs: self@.checks_kvs,
                    radios_kvs: self@.radios_kvs,
                    ..old(self)@
                }),
            decreases self.hitboxes@.len() - i,
        {
            let ghost pre = self@;
            match &self.hitboxes[i].interactable {
                Interactable::TextField { name, default, .. } => {
                    let d = default.clone();
                    proof {
                        crate::strmap::lemma_map_of_contains(self.field_values.kvs(), name@);
                    }
                    self.field_values.seed(name.as_str(), d);
                },
                Interactable::Checkbox { name } => {
                    proof {
                        crate::strmap::lemma_map_of_contains(self.checkbox_states.kvs(), name@);
                    }
                    self.checkbox_states.seed(name.as_str(), false);
                },
                Interactable::Radio { name, value } => {
                    let v = value.clone();
                    proof {
                        crate::strmap::lemma_map_of_contains(self.radio_states.kvs(), name@);
                    }
                    self.radio_states.seed(name.as_str(), v);
                },
                Interactable::Link { .. } => {},
            }
            i = i + 1;
        }
    }

    /// Forgets all form values and the selection.
    fn clear_form_state(&mut self)
        ensures
            final(self)@ == (BrowserV {
                fields_kvs: Seq::empty(),
                checks_kvs: Seq::empty(),
                radios_kvs: Seq::empty(),
                selected: 0,
                editing: None,
                ..old(self)@
            }),
    {
        self.field_values.clear();
        self.checkbox_states.clear();
        self.radio_states.clear();
        self.selected = 0;
        self.editing_field = None;
    }

    /// Parses the content, renders it in full, stores the output, hit-map
    /// and height, and seeds form defaults from the new hit-map.
    fn rebuild(&mut self)
        ensures
            old(self)@.content is None ==> final(self)@ == (BrowserV {
                hitboxes: Seq::empty(),
                content_height: 0,
                dirty: false,
                has_cache: false,
                ..old(self)@
            }),
            old(self)@.content is Some ==> ({
                let seeded = seed_forms(
                    old(self)@.fields_kvs,
                    old(self)@.checks_kvs,
                    old(self)@.radios_kvs,
                    final(self)@.hitboxes,
                    0,
                );
                final(self)@ == (BrowserV {
                    hitboxes: final(self)@.hitboxes,
                    content_height: final(self)@.content_height,
                    dirty: false,
                    has_cache: true,
                    fields_kvs: seeded.0,
                    checks_kvs: seeded.1,
                    radios_kvs: seeded.2,
                    ..old(self)@
                })
            }),
    {
        if self.content.is_none() {
            self.hitboxes = Vec::new();
            self.content_height = 0;
            self.cached_output = None;
            self.render_dirty = false;
            proof {
                assert(self@.hitboxes =~= Seq::<HitboxV>::empty());
            }
            return ;
        }
        let fs = self.form_state();
        let doc = match &self.content {
            Some(c) => parse(c.as_str()),
            None => Document { lines: Vec::new() },
        };
        let output = self.renderer.render(&doc, self.width, &fs, Some(self.selected));
        self.hitboxes = output.hitboxes;
        self.content_height = output.height;
        self.cached_output = Some(output.content);
        self.render_dirty = false;
        self.seed_from_hitboxes();
    }

    /// Re-runs only the visual pass, keeping the hit-map: used when form
    /// values or the selection changed but the layout did not.
    fn rerender(&mut self)
        ensures
            final(self)@ == (BrowserV {
                dirty: old(self)@.dirty && old(self)@.content is None,
                has_cache: old(self)@.has_cache || old(self)@.content is Some,
                ..old(self)@
            }),
    {
        if self.content.is_none() {
            return ;
        }
        let fs = self.form_state();
        let doc = match &self.content {
            Some(c) => parse(c.as_str()),
            None => Document { lines: Vec::new() },
        };
        let output = self.renderer.render(&doc, self.width, &fs, Some(self.selected));
        self.cached_output = Some(output.content);
        self.render_dirty = false;
    }

    /// Loads a page: the previous one, if any, goes onto the back stack with
    /// its scroll position; the forward stack is cleared; scroll, selection
    /// and form state reset; the page is parsed, rendered and its form
    /// defaults seeded.
    pub fn set_content(&mut self, url: &str, content: &str)
        ensures
            ({
                let pushed = (match (old(self)@.url, old(self)@.content) {
                    (Some(u), Some(c)) => old(self)@.back.push(
                        HistV { url: u, content: c, scroll: old(self)@.scroll },
                    ),
                    _ => old(self)@.back,
                });
                let seeded = seed_forms(
                    Seq::empty(),
                    Seq::empty(),
                    Seq::empty(),
                    final(self)@.hitboxes,
                    0,
                );
                final(self)@ == (BrowserV {
                    url: Some(url@),
                    content: Some(content@),
                    scroll: 0,
                    back: pushed,
                    forward: Seq::empty(),
                    selected: 0,
                    editing: None,
                    hitboxes: final(self)@.hitboxes,
                    content_height: final(self)@.content_height,
                    fields_kvs: seeded.0,
                    checks_kvs: seeded.1,
                    radios_kvs: seeded.2,
                    dirty: false,
                    has_cache: true,
                    ..old(self)@
                })
            }),
    {
        let old_url = self.url.take();
        let old_content = self.content.take();
        match (old_url, old_content) {
            (Some(u), Some(c)) => {
                let ghost bv = self@.back;
                self.back_stack.push(HistoryEntry { url: u, content: c, scroll: self.scroll });
                proof {
                    assert(self@.back =~= bv.push(self.back_stack@[self.back_stack@.len() - 1]@));
                }
            },
            _ => {},
        }
        self.forward_stack.clear();
        proof {
            assert(self@.forward =~= Seq::<HistV>::empty());
        }
        self.url = Some(string_from_chars(&str_chars(url)));
        self.content = Some(string_from_chars(&str_chars(content)));
        self.scroll = 0;
        self.clear_form_state();
        self.rebuild();
    }

    /// Goes back one page, pushing the current one onto the forward stack;
    /// false when there is nowhere to go. Form state is cleared and reseeded
    /// from the restored page.
    pub fn back(&mut self) -> (r: bool)
        ensures
            old(self)@.back.len() == 0 ==> (!r && final(self)@ == old(self)@),
            old(self)@.back.len() > 0 ==> ({
                let entry = old(self)@.back.last();
                let pushed = (match (old(self)@.url, old(self)@.content) {
                    (Some(u), Some(c)) => old(self)@.forward.push(
                        HistV { url: u, content: c, scroll: old(self)@.scroll },
                    ),
                    _ => old(self)@.forward,
                });
                let seeded = seed_forms(
                    Seq::empty(),
                    Seq::empty(),
                    Seq::empty(),
                    final(self)@.hitboxes,
                    0,
                );
                r && final(self)@ == (BrowserV {
                    url: Some(entry.url),
                    content: Some(entry.content),
                    scroll: entry.scroll,
                    back: old(self)@.back.drop_last(),
                    forward: pushed,
                    selected: 0,
                    editing: None,
                    hitboxes: final(self)@.hitboxes,
                    content_height: final(self)@.content_height,
                    fields_kvs: seeded.0,
                    checks_kvs: seeded.1,
                    radios_kvs: seeded.2,
                    dirty: false,
                    has_cache: true,
                    ..old(self)@
                })
            }),
    {
        let entry = match self.back_stack.pop() {
            Some(e) => e,
            None => {
                return false;
            },
        };
        proof {
            assert(self@.back =~= old(self)@.back.drop_last());
        }
        let old_url = self.url.take();
        let old_content = self.content.take();
        match (old_url, old_content) {
            (Some(u), Some(c)) => {
                let ghost fv = self@.forward;
                self.forward_stack.push(
                    HistoryEntry { url: u, content: c, scroll: self.scroll },
                );
                proof {
                    assert(self@.forward =~= fv.push(
                        self.forward_stack@[self.forward_stack@.len() - 1]@,
                    ));
                }
            },
            _ => {},
        }
        self.url = Some(entry.url);
        self.content = Some(entry.content);
        self.scroll = entry.scroll;
        self.clear_form_state();
        self.rebuild();
        true
    }

    /// Goes forward one page, pushing the current one onto the back stack;
    /// false when there is nowhere to go.
    pub fn forward(&mut self) -> (r: bool)
        ensures
            old(self)@.forward.len() == 0 ==> (!r && final(self)@ == old(self)@),
            old(self)@.forward.len() > 0 ==> ({
                let entry = old(self)@.forward.last();
                let pushed = (match (old(self)@.url, old(self)@.content) {
                    (Some(u), Some(c)) => old(self)@.back.push(
                        HistV { url: u, content: c, scroll: old(self)@.scroll },
                    ),
                    _ => old(self)@.back,
                });
                let seeded = seed_forms(
                    Seq::empty(),
                    Seq::empty(),
                    Seq::empty(),
                    final(self)@.hitboxes,
                    0,
                );
                r && final(self)@ == (BrowserV {
                    url: Some(entry.url),
                    content: Some(entry.content),
                    scroll: entry.scroll,
                    back: pushed,
                    forward: old(self)@.forward.drop_last(),
                    selected: 0,
                    editing: None,
                    hitboxes: final(self)@.hitboxes,
                    content_height: final(self)@.content_height,
                    fields_kvs: seeded.0,
                    checks_kvs: seeded.1,
                    radios_kvs: seeded.2,
                    dirty: false,
                    has_cache: true,
                    ..old(self)@
                })
            }),
    {
        let entry = match self.forward_stack.pop() {
            Some(e) => e,
            None => {
                return false;
            },
        };
        proof {
            assert(self@.forward =~= old(self)@.forward.drop_last());
        }
        let old_url = self.url.take();
        let old_content = self.content.take();
        match (old_url, old_content) {
            (Some(u), Some(c)) => {
                let ghost bv = self@.back;
                self.back_stack.push(HistoryEntry { url: u, content: c, scroll: self.scroll });
                proof {
                    assert(self@.back =~= bv.push(self.back_stack@[self.back_stack@.len() - 1]@));
                }
            },
            _ => {},
        }
        self.url = Some(entry.url);
        self.content = Some(entry.content);
        self.scroll = entry.scroll;
        self.clear_form_state();
        self.rebuild();
        true
    }

    /// Stores the viewport size; a width change on a loaded page rebuilds
    /// the layout, since the hit-map depends on the width.
    pub fn resize(&mut self, width: u16, height: u16)
        ensures
            (old(self)@.width == width || old(self)@.content is None) ==> final(self)@ == (
            BrowserV { width, height, ..old(self)@ }),
            (old(self)@.width != width && old(self)@.content is Some) ==> ({
                let seeded = seed_forms(
                    old(self)@.fields_kvs,
                    old(self)@.checks_kvs,
                    old(self)@.radios_kvs,
                    final(self)@.hitboxes,
                    0,
                );
                final(self)@ == (BrowserV {
                    width,
                    height,
                    hitboxes: final(self)@.hitboxes,
                    content_height: final(self)@.content_height,
                    dirty: false,
                    has_cache: true,
                    fields_kvs: seeded.0,
                    checks_kvs: seeded.1,
                    radios_kvs: seeded.2,
                    ..old(self)@
                })
            }),
    {
        let width_changed = self.width != width;
        self.width = width;
        self.height = height;
        if width_changed && self.content.is_some() {
            self.rebuild();
        }
    }

    /// The cached output, re-rendering first if the visuals are stale.
    pub fn render(&mut self) -> (r: Option<&R::Output>)
        ensures
            final(self)@ == (BrowserV {
                dirty: old(self)@.dirty && old(self)@.content is None,
                has_cache: old(self)@.has_cache || (old(self)@.dirty && old(self)@.content
                    is Some),
                ..old(self)@
            }),
            r is Some <==> final(self)@.has_cache,
    {
        if self.render_dirty {
            self.rerender();
        }
        self.cached_output.as_ref()
    }

    /// Clamps a scroll request to the scrollable range.
    pub fn scroll_to(&mut self, y: u16)
        ensures
            ({
                let max: u16 = if old(self)@.content_height >= old(self)@.height {
                    (old(self)@.content_height - old(self)@.height) as u16
                } else {
                    0
                };
                final(self)@ == (BrowserV {
                    scroll: if y <= max {
                        y
                    } else {
                        max
                    },
                    ..old(self)@
                })
            }),
    {
        let max: u16 = if self.content_height >= self.height {
            self.content_height - self.height
        } else {
            0
        };
        self.scroll = if y <= max {
            y
        } else {
            max
        };
    }

    /// Scrolls by a signed amount, clamped at both ends.
    pub fn scroll_by(&mut self, delta: i32)
        ensures
            ({
                let target = old(self)@.scroll + delta;
                let y: u16 = if target < 0 {
                    0
                } else if target > u16::MAX {
                    u16::MAX
                } else {
                    target as u16
                };
                let max: u16 = if old(self)@.content_height >= old(self)@.height {
                    (old(self)@.content_height - old(self)@.height) as u16
                } else {
                    0
                };
                final(self)@ == (BrowserV {
                    scroll: if y <= max {
                        y
                    } else {
                        max
                    },
                    ..old(self)@
                })
            }),
    {
        let cur = self.scroll as i64;
        let target = cur + (delta as i64);
        let y: u16 = if target < 0 {
            0
        } else if target > 65535 {
            65535
        } else {
            target as u16
        };
        self.scroll_to(y);
    }

    /// Scrolls the minimum amount that brings the selected hitbox's row into
    /// the viewport.
    fn ensure_selected_visible(&mut self)
        ensures
            final(self)@ == (BrowserV {
                scroll: if 0 <= old(self)@.selected < old(self)@.hitboxes.len() {
                    visible_scroll(
                        old(self)@.scroll,
                        old(self)@.height,
                        old(self)@.hitboxes[old(self)@.selected].line,
                    )
                } else {
                    old(self)@.scroll
                },
                ..old(self)@
            }),
    {
        if self.selected < self.hitboxes.len() {
            let line_us = self.hitboxes[self.selected].line;
            let l16: u16 = if line_us <= 65535 {
                line_us as u16
            } else {
                65535
            };
            if l16 < self.scroll {
                self.scroll = l16;
            } else if (l16 as u32) >= (self.scroll as u32) + (self.height as u32) {
                let base: u16 = if l16 >= self.height {
                    l16 - self.height
                } else {
                    0
                };
                self.scroll = if base < 65535 {
                    base + 1
                } else {
                    65535
                };
            }
        }
    }

    /// Selects the next hitbox entry, wrapping at the end, and brings it
    /// into view. A no-op on an empty hit-map.
    pub fn select_next(&mut self)
        ensures
            old(self)@.hitboxes.len() == 0 ==> final(self)@ == old(self)@,
            old(self)@.hitboxes.len() > 0 ==> ({
                let sel = crate::layout::sat_inc(old(self)@.selected) % (
                old(self)@.hitboxes.len() as int);
                final(self)@ == (BrowserV {
                    selected: sel,
                    scroll: if 0 <= sel < old(self)@.hitboxes.len() {
                        visible_scroll(
                            old(self)@.scroll,
                            old(self)@.height,
                            old(self)@.hitboxes[sel].line,
                        )
                    } else {
                        old(self)@.scroll
                    },
                    ..old(self)@
                })
            }),
    {
        if self.hitboxes.len() > 0 {
            let bumped = if self.selected < usize::MAX {
                self.selected + 1
            } else {
                self.selected
            };
            self.selected = bumped % self.hitboxes.len();
            self.ensure_selected_visible();
        }
    }

    /// Selects the previous hitbox entry, wrapping at the start, and brings
    /// it into view. A no-op on an empty hit-map.
    pub fn select_prev(&mut self)
        ensures
            old(self)@.hitboxes.len() == 0 ==> final(self)@ == old(self)@,
            old(self)@.hitboxes.len() > 0 ==> ({
                let sel = if old(self)@.selected >= 1 {
                    old(self)@.selected - 1
                } else {
                    old(self)@.hitboxes.len() - 1
                };
                final(self)@ == (BrowserV {
                    selected: sel,
                    scroll: if 0 <= sel < old(self)@.hitboxes.len() {
                        visible_scroll(
                            old(self)@.scroll,
                            old(self)@.height,
                            old(self)@.hitboxes[sel].line,
                        )
                    } else {
                        old(self)@.scroll
                    },
                    ..old(self)@
                })
            }),
    {
        if self.hitboxes.len() > 0 {
            self.selected = if self.selected >= 1 {
                self.selected - 1
            } else {
                self.hitboxes.len() - 1
            };
            self.ensure_selected_visible();
        }
    }

    /// The collected form data of the given field specifiers.
    fn collect_form_data(&self, field_specs: &Vec<String>) -> (r: StrMap<String>)
        ensures
            r@ == collect_spec(
                field_specs.deep_view(),
                self@.fields_kvs,
                self@.checks_kvs,
                self@.radios_kvs,
            ),
    {
        let ghost specs = field_specs.deep_view();
        let mut data: StrMap<String> = StrMap::new();
        if field_specs.len() == 0 {
            return data;
        }
        let mut i: usize = 0;
        while i < field_specs.len()
            invariant
                i <= field_specs@.len(),
                specs == field_specs.deep_view(),
                literal_data(specs, 0, Map::empty()) == literal_data(specs, i as int, data@),
            decreases field_specs@.len() - i,
        {
            let s = &field_specs[i];
            let cs = str_chars(s.as_str());
            let p = crate::strutil::find_char(&cs, 0, '=');
            proof {
                assert(specs[i as int] == cs@);
            }
            if p < cs.len() {
                let key = crate::strutil::subvec(&cs, 0, p);
                let val = crate::strutil::subvec(&cs, p + 1, cs.len());
                data.insert(string_from_chars(&key).as_str(), string_from_chars(&val));
            }
            i = i + 1;
        }
        let ghost lit = literal_data(specs, 0, Map::empty());
        proof {
            assert(literal_data(specs, i as int, data@) == data@);
        }
        let wild = self.has_wildcard_exec(field_specs);
        let mut j: usize = 0;
        let flen = self.field_values.len();
        while j < flen
            invariant
                j <= self@.fields_kvs.len(),
                flen == self@.fields_kvs.len(),
                specs == field_specs.deep_view(),
                wild == has_wildcard(specs),
                fields_data(specs, self@.fields_kvs, 0, lit) == fields_data(
                    specs,
                    self@.fields_kvs,
                    j as int,
                    data@,
                ),
            decreases flen - j,
        {
            let (name, value) = self.field_values.entry_at(j);
            let included = wild || requested_exec(field_specs, name.as_str());
            if included {
                let v = value.clone();
                data.insert(name.as_str(), v);
            }
            j = j + 1;
        }
        let ghost fd = fields_data(specs, self@.fields_kvs, 0, lit);
        proof {
            assert(fields_data(specs, self@.fields_kvs, j as int, data@) == data@);
        }
        let mut j: usize = 0;
        let clen = self.checkbox_states.len();
        while j < clen
            invariant
                j <= self@.checks_kvs.len(),
                clen == self@.checks_kvs.len(),
                specs == field_specs.deep_view(),
                wild == has_wildcard(specs),
                checks_data(specs, self@.checks_kvs, 0, fd) == checks_data(
                    specs,
                    self@.checks_kvs,
                    j as int,
                    data@,
                ),
            decreases clen - j,
        {
            let (name, checked) = self.checkbox_states.entry_at(j);
            let included = *checked && (wild || requested_exec(field_specs, name.as_str()));
            if included {
                let mut one = String::new();
                push_char(&mut one, '1');
                proof {
                    assert(one@ =~= seq!['1']);
                }
                data.insert(name.as_str(), one);
            }
            j = j + 1;
        }
        let ghost cd = checks_data(specs, self@.checks_kvs, 0, fd);
        proof {
            assert(checks_data(specs, self@.checks_kvs, j as int, data@) == data@);
        }
        let mut j: usize = 0;
        let rlen = self.radio_states.len();
        while j < rlen
            invariant
                j <= self@.radios_kvs.len(),
                rlen == self@.radios_kvs.len(),
                specs == field_specs.deep_view(),
                wild == has_wildcard(specs),
                radios_data(specs, self@.radios_kvs, 0, cd) == radios_data(
                    specs,
                    self@.radios_kvs,
                    j as int,
                    data@,
                ),
            decreases rlen - j,
        {
            let (name, value) = self.radio_states.entry_at(j);
            let included = wild || requested_exec(field_specs, name.as_str());
            if included {
                let v = value.clone();
                data.insert(name.as_str(), v);
            }
            j = j + 1;
        }
        proof {
            assert(radios_data(specs, self@.radios_kvs, j as int, data@) == data@);
        }
        data
    }

    /// Whether any specifier is the wildcard.
    fn has_wildcard_exec(&self, field_specs: &Vec<String>) -> (r: bool)
        ensures
            r == has_wildcard(field_specs.deep_view()),
    {
        let mut i: usize = 0;
        while i < field_specs.len()
            invariant
                i <= field_specs@.len(),
                forall|j: int|
                    0 <= j < i ==> (#[trigger] field_specs.deep_view()[j]) != seq!['*'],
            decreases field_specs@.len() - i,
        {
            if str_eq(field_specs[i].as_str(), "*") {
                proof {
                    crate::strutil::lemma_star_lit();
                    assert(field_specs.deep_view()[i as int] == seq!['*']);
                }
                return true;
            }
            proof {
                crate::strutil::lemma_star_lit();
            }
            i = i + 1;
        }
        false
    }

    /// Acts on the selected hitbox. A link returns itself with the collected
    /// form data; a text field starts an edit; a checkbox flips; a radio
    /// selects its value. Nothing is selected on an empty hit-map, so
    /// nothing happens.
    pub fn interact(&mut self) -> (r: Option<Link>)
        ensures
            !(0 <= old(self)@.selected < old(self)@.hitboxes.len()) ==> (r is None && final(self)@
                == old(self)@),
            0 <= old(self)@.selected < old(self)@.hitboxes.len() ==> ({
                let hb = old(self)@.hitboxes[old(self)@.selected];
                match hb.interactable {
                    InteractableV::Link { url, fields } => ({
                        &&& final(self)@ == old(self)@
                        &&& r matches Some(link) && link@.url == url && link@.fields == fields
                            && link@.form_data == collect_spec(
                            fields,
                            old(self)@.fields_kvs,
                            old(self)@.checks_kvs,
                            old(self)@.radios_kvs,
                        )
                    }),
                    InteractableV::TextField { .. } => r is None && final(self)@ == (BrowserV {
                        editing: Some(old(self)@.selected),
                        dirty: true,
                        ..old(self)@
                    }),
                    InteractableV::Checkbox { name } => ({
                        let cur = if map_of(old(self)@.checks_kvs).contains_key(name) {
                            map_of(old(self)@.checks_kvs)[name]
                        } else {
                            false
                        };
                        r is None && map_of(final(self)@.checks_kvs) == map_of(
                            old(self)@.checks_kvs,
                        ).insert(name, !cur) && final(self)@ == (BrowserV {
                            checks_kvs: final(self)@.checks_kvs,
                            dirty: true,
                            ..old(self)@
                        })
                    }),
                    InteractableV::Radio { name, value } => r is None && map_of(
                        final(self)@.radios_kvs,
                    ) == map_of(old(self)@.radios_kvs).insert(name, value) && final(self)@ == (
                    BrowserV { radios_kvs: final(self)@.radios_kvs, dirty: true, ..old(self)@ }),
                }
            }),
    {
        if self.selected >= self.hitboxes.len() {
            return None;
        }
        let target = crate::layout::clone_interactable_pub(&self.hitboxes[self.selected].interactable);
        match target {
            Interactable::Link { url, fields } => {
                let form_data = self.collect_form_data(&fields);
                Some(Link { url, fields, form_data })
            },
            Interactable::TextField { .. } => {
                self.editing_field = Some(self.selected);
                self.render_dirty = true;
                None
            },
            Interactable::Checkbox { name } => {
                let cur = match self.checkbox_states.get(name.as_str()) {
                    Some(b) => *b,
                    None => false,
                };
                self.checkbox_states.insert(name.as_str(), !cur);
                self.render_dirty = true;
                None
            },
            Interactable::Radio { name, value } => {
                self.radio_states.insert(name.as_str(), value);
                self.render_dirty = true;
                None
            },
        }
    }

    /// Converts viewport coordinates to document coordinates using the
    /// scroll offset, finds the first hitbox containing them, selects it and
    /// acts on it; on a miss an in-progress edit is dropped instead.
    pub fn click(&mut self, x: u16, y: u16) -> (r: Option<Link>)
        ensures
            ({
                let doc_y = y + old(self)@.scroll;
                match hit_at(old(self)@.hitboxes, 0, x as int, doc_y) {
                    Some(i) => ({
                        let hb = old(self)@.hitboxes[i];
                        match hb.interactable {
                            InteractableV::Link { url, fields } => ({
                                &&& final(self)@ == (BrowserV { selected: i, ..old(self)@ })
                                &&& r matches Some(link) && link@.url == url && link@.fields
                                    == fields && link@.form_data == collect_spec(
                                    fields,
                                    old(self)@.fields_kvs,
                                    old(self)@.checks_kvs,
                                    old(self)@.radios_kvs,
                                )
                            }),
                            InteractableV::TextField { .. } => r is None && final(self)@ == (
                            BrowserV { selected: i, editing: Some(i), dirty: true, ..old(self)@ }),
                            InteractableV::Checkbox { name } => ({
                                let cur = if map_of(old(self)@.checks_kvs).contains_key(name) {
                                    map_of(old(self)@.checks_kvs)[name]
                                } else {
                                    false
                                };
                                r is None && map_of(final(self)@.checks_kvs) == map_of(
                                    old(self)@.checks_kvs,
                                ).insert(name, !cur) && final(self)@ == (BrowserV {
                                    selected: i,
                                    checks_kvs: final(self)@.checks_kvs,
                                    dirty: true,
                                    ..old(self)@
                                })
                            }),
                            InteractableV::Radio { name, value } => ({
                                &&& r is None
                                &&& map_of(final(self)@.radios_kvs) == map_of(
                                    old(self)@.radios_kvs,
                                ).insert(name, value)
                                &&& final(self)@ == (BrowserV {
                                    selected: i,
                                    radios_kvs: final(self)@.radios_kvs,
                                    dirty: true,
                                    ..old(self)@
                                })
                            }),
                        }
                    }),
                    None => r is None && final(self)@ == (BrowserV {
                        editing: None,
                        dirty: old(self)@.dirty || old(self)@.editing is Some,
                        ..old(self)@
                    }),
                }
            }),
    {
        let doc_y: u32 = (y as u32) + (self.scroll as u32);
        let doc_x = x as u32;
        let ghost hs = self@.hitboxes;
        let mut idx: usize = 0;
        while idx < self.hitboxes.len()
            invariant
                idx <= self@.hitboxes.len(),
                hs == self@.hitboxes,
                doc_y == y + self@.scroll,
                doc_x == x,
                hit_at(hs, 0, x as int, doc_y as int) == hit_at(hs, idx as int, x as int, doc_y as int),
                self == old(self),
            decreases self@.hitboxes.len() - idx,
        {
            let hb = &self.hitboxes[idx];
            if (hb.line as u64) == (doc_y as u64) && (hb.col_start as u64) <= (doc_x as u64) && (
            doc_x as u64) < (hb.col_end as u64) {
                self.selected = idx;
                return self.interact();
            }
            idx = idx + 1;
        }
        if self.editing_field.is_some() {
            self.editing_field = None;
            self.render_dirty = true;
        }
        None
    }

    /// Ends an in-progress edit without touching the field's value.
    pub fn cancel_edit(&mut self)
        ensures
            final(self)@ == (BrowserV {
                editing: None,
                dirty: old(self)@.dirty || old(self)@.editing is Some,
                ..old(self)@
            }),
    {
        if self.editing_field.is_some() {
            self.editing_field = None;
            self.render_dirty = true;
        }
    }

    /// Appends a character to the field being edited; ignored when no text
    /// field edit is in progress.
    pub fn input_char(&mut self, c: char) -> (r: InputResult)
        ensures
            ({
                match old(self)@.editing {
                    Some(i) => if 0 <= i < old(self)@.hitboxes.len() {
                        match old(self)@.hitboxes[i].interactable {
                            InteractableV::TextField { name, .. } => ({
                                let oldv = if map_of(old(self)@.fields_kvs).contains_key(name) {
                                    map_of(old(self)@.fields_kvs)[name]
                                } else {
                                    Seq::empty()
                                };
                                r == InputResult::Consumed && map_of(final(self)@.fields_kvs)
                                    == map_of(old(self)@.fields_kvs).insert(name, oldv.push(c))
                                    && final(self)@ == (BrowserV {
                                    fields_kvs: final(self)@.fields_kvs,
                                    dirty: true,
                                    ..old(self)@
                                })
                            }),
                            _ => r == InputResult::Ignored && final(self)@ == old(self)@,
                        }
                    } else {
                        r == InputResult::Ignored && final(self)@ == old(self)@
                    },
                    None => r == InputResult::Ignored && final(self)@ == old(self)@,
                }
            }),
    {
        let idx = match self.editing_field {
            Some(i) => i,
            None => {
                return InputResult::Ignored;
            },
        };
        if idx >= self.hitboxes.len() {
            return InputResult::Ignored;
        }
        let name: String = match &self.hitboxes[idx].interactable {
            Interactable::TextField { name, .. } => name.clone(),
            _ => {
                return InputResult::Ignored;
            },
        };
        let mut value: String = match self.field_values.get(name.as_str()) {
            Some(v) => v.clone(),
            None => String::new(),
        };
        push_char(&mut value, c);
        self.field_values.insert(name.as_str(), value);
        self.render_dirty = true;
        InputResult::Consumed
    }

    /// Removes the last character of the field being edited; ignored when no
    /// text field edit is in progress. A field with no stored value is left
    /// alone.
    pub fn input_backspace(&mut self) -> (r: InputResult)
        ensures
            ({
                match old(self)@.editing {
                    Some(i) => if 0 <= i < old(self)@.hitboxes.len() {
                        match old(self)@.hitboxes[i].interactable {
                            InteractableV::TextField { name, .. } => ({
                                if map_of(old(self)@.fields_kvs).contains_key(name) {
                                    let oldv = map_of(old(self)@.fields_kvs)[name];
                                    let newv = if oldv.len() > 0 {
                                        oldv.drop_last()
                                    } else {
                                        oldv
                                    };
                                    r == InputResult::Consumed && map_of(final(self)@.fields_kvs)
                                        == map_of(old(self)@.fields_kvs).insert(name, newv)
                                        && final(self)@ == (BrowserV {
                                        fields_kvs: final(self)@.fields_kvs,
                                        dirty: true,
                                        ..old(self)@
                                    })
                                } else {
                                    r == InputResult::Consumed && final(self)@ == old(self)@
                                }
                            }),
                            _ => r == InputResult::Ignored && final(self)@ == old(self)@,
                        }
                    } else {
                        r == InputResult::Ignored && final(self)@ == old(self)@
                    },
                    None => r == InputResult::Ignored && final(self)@ == old(self)@,
                }
            }),
    {
        let idx = match self.editing_field {
            Some(i) => i,
            None => {
                return InputResult::Ignored;
            },
        };
        if idx >= self.hitboxes.len() {
            return InputResult::Ignored;
        }
        let name: String = match &self.hitboxes[idx].interactable {
            Interactable::TextField { name, .. } => name.clone(),
            _ => {
                return InputResult::Ignored;
            },
        };
        match self.field_values.get(name.as_str()) {
            Some(v) => {
                let cs = str_chars(v.as_str());
                let newv = if cs.len() > 0 {
                    crate::strutil::subvec(&cs, 0, cs.len() - 1)
                } else {
                    cs
                };
                proof {
                    if v@.len() > 0 {
                        assert(newv@ =~= v@.drop_last());
                    } else {
                        assert(newv@ =~= v@);
                    }
                }
                self.field_values.insert(name.as_str(), string_from_chars(&newv));
                self.render_dirty = true;
                InputResult::Consumed
            },
            None => InputResult::Consumed,
        }
    }

    /// The url of the selected hitbox when it is a link.
    pub fn selected_link(&self) -> (r: Option<&str>)
        ensures
            match r {
                Some(s) => 0 <= self@.selected < self@.hitboxes.len() && (self@.hitboxes[
                    self@.selected
                ].interactable matches InteractableV::Link { url, .. } && url == s@),
                None => !(0 <= self@.selected < self@.hitboxes.len()) || !(self@.hitboxes[
                    self@.selected
                ].interactable is Link),
            },
    {
        if self.selected >= self.hitboxes.len() {
            return None;
        }
        match &self.hitboxes[self.selected].interactable {
            Interactable::Link { url, .. } => Some(url.as_str()),
            _ => None,
        }
    }
}

/// Whether a bare specifier requests the name.
fn requested_exec(field_specs: &Vec<String>, name: &str) -> (r: bool)
    ensures
        r == is_requested(field_specs.deep_view(), name@),
{
    proof {
        crate::strutil::lemma_star_lit();
    }
    if str_eq(name, "*") {
        return false;
    }
    let ncs = str_chars(name);
    let eqpos = crate::strutil::find_char(&ncs, 0, '=');
    if eqpos < ncs.len() {
        proof {
            crate::strutil::lemma_find_from(name@, 0, '=');
        }
        return false;
    }
    proof {
        crate::strutil::lemma_find_from(name@, 0, '=');
        assert(!crate::serialize::seq_contains(name@, '='));
    }
    let mut i: usize = 0;
    while i < field_specs.len()
        invariant
            i <= field_specs@.len(),
            name@ != seq!['*'],
            !crate::serialize::seq_contains(name@, '='),
            forall|j: int| 0 <= j < i ==> (#[trigger] field_specs.deep_view()[j]) != name@,
        decreases field_specs@.len() - i,
    {
        if str_eq(field_specs[i].as_str(), name) {
            proof {
                let dv = field_specs.deep_view();
                assert(dv[i as int] == name@);
                assert(exists|j: int| 0 <= j < dv.len() && (#[trigger] dv[j]) == name@);
            }
            return true;
        }
        i = i + 1;
    }
    false
}

} // verus!
