//! The tables that tie a Touch Bar's Objective-C objects together.
//!
//! Every object is known by its handle, a `u64` (the object's address on the
//! Objective-C side). Bars and items are registered under an identifier whose
//! text is `com.trevorbentley.<n>`, `n` counting up from zero; controls point
//! back to the item that shows them; scrubbers, buttons and sliders point to
//! the data source or callback that serves them (handles too).

use std::collections::BTreeMap;
use vstd::prelude::*;

use crate::ident::{format_ident, ident_text, lemma_ident_text_injective, parse_ident};

verus! {

broadcast use vstd::std_specs::btree::group_btree_axioms;

/// The identifier a bar or an item was registered under: the handle of the
/// Objective-C string that holds its text, and its number, from which the
/// text follows (`ident_text(seq)`).
#[derive(Clone, Copy, Debug, PartialEq, Eq, Structural)]
pub struct Ident {
    pub handle: u64,
    pub seq: u64,
}

/// A registered text scrubber: the handle of its data source, of its bar
/// item, of the scrubber view, and of its identifier string.
#[derive(Clone, Copy, Debug, PartialEq, Eq, Structural)]
pub struct Scrubber {
    pub data: u64,
    pub item: u64,
    pub scrubber: u64,
    pub ident: u64,
}

/// One registration, as the `register_*` functions make them; each gives
/// its object (a bar or an item) the next identifier.
pub enum Registration {
    Bar { bar: u64, ident: u64 },
    PopoverItem { item: u64, button: u64, ident: u64 },
    Label { item: u64, label: u64, ident: u64 },
    TextScrubber { item: u64, scrubber: u64, ident: u64, data: u64 },
    Button { item: u64, button: u64, ident: u64, callback: u64 },
    Slider { item: u64, slider: u64, ident: u64, callback: u64 },
}

impl Registration {
    /// The bar or item that gets the identifier.
    pub open spec fn object(self) -> u64 {
        match self {
            Registration::Bar { bar, .. } => bar,
            Registration::PopoverItem { item, .. } => item,
            Registration::Label { item, .. } => item,
            Registration::TextScrubber { item, .. } => item,
            Registration::Button { item, .. } => item,
            Registration::Slider { item, .. } => item,
        }
    }

    /// The identifier string the object gets.
    pub open spec fn ident(self) -> u64 {
        match self {
            Registration::Bar { ident, .. } => ident,
            Registration::PopoverItem { ident, .. } => ident,
            Registration::Label { ident, .. } => ident,
            Registration::TextScrubber { ident, .. } => ident,
            Registration::Button { ident, .. } => ident,
            Registration::Slider { ident, .. } => ident,
        }
    }
}

/// No object is registered twice in `rs`.
pub open spec fn distinct_objects(rs: Seq<Registration>) -> bool {
    forall|i: int, j: int|
        0 <= i < j < rs.len() ==> #[trigger] rs[i].object() != #[trigger] rs[j].object()
}

/// What the tables hold, as mathematical maps.
#[verifier::ext_equal]
pub struct TouchbarModel {
    /// The number the next identifier gets.
    pub next_item_id: u64,
    /// Bar or item handle to the identifier it was registered under.
    pub bars: Map<u64, Ident>,
    /// Control handle (button, label, slider) to the item that shows it.
    pub controls: Map<u64, u64>,
    /// Scrubber view handle to its scrubber record.
    pub scrubbers: Map<u64, Scrubber>,
    /// Button handle to its callback handle.
    pub buttons: Map<u64, u64>,
    /// Slider handle to its callback handle.
    pub sliders: Map<u64, u64>,
}

impl TouchbarModel {
    /// The tables as a fresh touch bar has them.
    pub open spec fn empty() -> TouchbarModel {
        TouchbarModel {
            next_item_id: 0,
            bars: Map::empty(),
            controls: Map::empty(),
            scrubbers: Map::empty(),
            buttons: Map::empty(),
            sliders: Map::empty(),
        }
    }

    /// What every sequence of registrations keeps: every identifier was
    /// handed out before the current number, no number names two objects,
    /// every control is shown by a registered item, every button or slider
    /// with a callback is a control, and every scrubber record is filed under
    /// its own scrubber view and names a registered item.
    pub open spec fn valid(self) -> bool {
        &&& forall|o: u64| #[trigger] self.bars.contains_key(o) ==> self.bars[o].seq < self.next_item_id
        &&& forall|a: u64, b: u64|
            #[trigger] self.bars.contains_key(a) && #[trigger] self.bars.contains_key(b)
                && self.bars[a].seq == self.bars[b].seq ==> a == b
        &&& forall|c: u64| #[trigger]
            self.controls.contains_key(c) ==> self.bars.contains_key(self.controls[c])
        &&& forall|b: u64| #[trigger] self.buttons.contains_key(b) ==> self.controls.contains_key(b)
        &&& forall|l: u64| #[trigger] self.sliders.contains_key(l) ==> self.controls.contains_key(l)
        &&& forall|k: u64| #[trigger]
            self.scrubbers.contains_key(k) ==> self.scrubbers[k].scrubber == k
                && self.bars.contains_key(self.scrubbers[k].item)
    }

    /// Some registered object has the number `s`.
    pub open spec fn has_number(self, s: u64) -> bool {
        exists|o: u64| #[trigger] self.bars.contains_key(o) && self.bars[o].seq == s
    }

    /// What holds while every registration was of a new handle: there is one
    /// registered object per number below the counter, and every scrubber
    /// record names the identifier string its item was registered under.
    pub open spec fn fresh(self) -> bool {
        &&& self.bars.dom().finite()
        &&& self.bars.len() == self.next_item_id
        &&& forall|s: u64| s < self.next_item_id ==> #[trigger] self.has_number(s)
        &&& forall|k: u64| #[trigger]
            self.scrubbers.contains_key(k) ==> self.bars[self.scrubbers[k].item].handle
                == self.scrubbers[k].ident
    }

    /// The tables after the registration `r`.
    pub open spec fn register(self, r: Registration) -> TouchbarModel {
        match r {
            Registration::Bar { bar, ident } => self.with_ident(bar, ident),
            Registration::PopoverItem { item, button, ident } => self.with_ident(
                item,
                ident,
            ).with_control(button, item),
            Registration::Label { item, label, ident } => self.with_ident(item, ident).with_control(
                label,
                item,
            ),
            Registration::TextScrubber { item, scrubber, ident, data } => self.with_ident(
                item,
                ident,
            ).with_scrubber(scrubber, Scrubber { data, item, scrubber, ident }),
            Registration::Button { item, button, ident, callback } => self.with_ident(
                item,
                ident,
            ).with_control(button, item).with_button(button, callback),
            Registration::Slider { item, slider, ident, callback } => self.with_ident(
                item,
                ident,
            ).with_control(slider, item).with_slider(slider, callback),
        }
    }

    /// The tables of a fresh touch bar after the registrations `rs`, in order.
    pub open spec fn replay(rs: Seq<Registration>) -> TouchbarModel
        decreases rs.len(),
    {
        if rs.len() == 0 {
            TouchbarModel::empty()
        } else {
            TouchbarModel::replay(rs.drop_last()).register(rs.last())
        }
    }

    /// `obj` registered under the next identifier, whose string is `handle`.
    pub open spec fn with_ident(self, obj: u64, handle: u64) -> TouchbarModel {
        TouchbarModel {
            next_item_id: (self.next_item_id + 1) as u64,
            bars: self.bars.insert(obj, Ident { handle, seq: self.next_item_id }),
            ..self
        }
    }

    /// `control` shown by `item`.
    pub open spec fn with_control(self, control: u64, item: u64) -> TouchbarModel {
        TouchbarModel { controls: self.controls.insert(control, item), ..self }
    }

    /// `scrubber` served by `record`.
    pub open spec fn with_scrubber(self, scrubber: u64, record: Scrubber) -> TouchbarModel {
        TouchbarModel { scrubbers: self.scrubbers.insert(scrubber, record), ..self }
    }

    /// `button` calls back `callback`.
    pub open spec fn with_button(self, button: u64, callback: u64) -> TouchbarModel {
        TouchbarModel { buttons: self.buttons.insert(button, callback), ..self }
    }

    /// `slider` calls back `callback`.
    pub open spec fn with_slider(self, slider: u64, callback: u64) -> TouchbarModel {
        TouchbarModel { sliders: self.sliders.insert(slider, callback), ..self }
    }
}

/// The Rust side of a Touch Bar: the identifier counter and the tables.
pub struct RustTouchbarDelegateWrapper {
    next_item_id: u64,
    bar_obj_map: BTreeMap<u64, Ident>,
    /// Identifier number to the object registered under it.
    ident_index: BTreeMap<u64, u64>,
    control_obj_map: BTreeMap<u64, u64>,
    scrubber_obj_map: BTreeMap<u64, Scrubber>,
    button_cb_map: BTreeMap<u64, u64>,
    slider_cb_map: BTreeMap<u64, u64>,
}

impl View for RustTouchbarDelegateWrapper {
    type V = TouchbarModel;

    closed spec fn view(&self) -> TouchbarModel {
        TouchbarModel {
            next_item_id: self.next_item_id,
            bars: self.bar_obj_map@,
            controls: self.control_obj_map@,
            scrubbers: self.scrubber_obj_map@,
            buttons: self.button_cb_map@,
            sliders: self.slider_cb_map@,
        }
    }
}

impl RustTouchbarDelegateWrapper {
    /// Every registered object is found again by its identifier number.
    closed spec fn index_ok(&self) -> bool {
        forall|o: u64| #[trigger] self.bar_obj_map@.contains_key(o) ==> {
            let s = self.bar_obj_map@[o].seq;
            &&& s < self.next_item_id
            &&& self.ident_index@.contains_key(s)
            &&& self.ident_index@[s] == o
        }
    }

    /// The tables are valid and agree with the index of identifier numbers.
    pub closed spec fn wf(&self) -> bool {
        &&& self.index_ok()
        &&& self@.valid()
    }

    /// A well-formed wrapper has valid tables.
    pub proof fn lemma_wf_valid(&self)
        requires
            self.wf(),
        ensures
            self@.valid(),
    {
    }

    /// Empty tables; the first identifier will be number zero.
    pub fn new() -> (w: Self)
        ensures
            w.wf(),
            w@ == TouchbarModel::empty(),
            w@ == TouchbarModel::replay(Seq::empty()),
            w@.next_item_id == 0,
            w@.bars.dom() == Set::<u64>::empty(),
            w@.controls.dom() == Set::<u64>::empty(),
            w@.scrubbers.dom() == Set::<u64>::empty(),
            w@.buttons.dom() == Set::<u64>::empty(),
            w@.sliders.dom() == Set::<u64>::empty(),
    {
        let w = RustTouchbarDelegateWrapper {
            next_item_id: 0,
            bar_obj_map: BTreeMap::new(),
            ident_index: BTreeMap::new(),
            control_obj_map: BTreeMap::new(),
            scrubber_obj_map: BTreeMap::new(),
            button_cb_map: BTreeMap::new(),
            slider_cb_map: BTreeMap::new(),
        };
        assert(w@.bars =~= Map::empty());
        w
    }

    /// The number the next identifier gets.
    pub fn next_ident_seq(&self) -> (n: u64)
        ensures
            n == self@.next_item_id,
    {
        self.next_item_id
    }

    /// The text of the next identifier, to be put in an Objective-C string
    /// before the object is registered under it.
    pub fn next_ident_text(&self) -> (text: Vec<u8>)
        ensures
            text@ == ident_text(self@.next_item_id as nat),
    {
        format_ident(self.next_item_id)
    }

    /// Registers `obj` under the next identifier, held in the string `handle`.
    fn add_ident(&mut self, obj: u64, handle: u64) -> (id: Ident)
        requires
            old(self).index_ok(),
            old(self)@.next_item_id < u64::MAX,
        ensures
            final(self).index_ok(),
            final(self)@ == old(self)@.with_ident(obj, handle),
            id == (Ident { handle, seq: old(self)@.next_item_id }),
    {
        let seq = self.next_item_id;
        let id = Ident { handle, seq };
        self.ident_index.insert(seq, obj);
        self.next_item_id = seq + 1;
        self.bar_obj_map.insert(obj, id);
        assert forall|o: u64| #[trigger] self.bar_obj_map@.contains_key(o) implies {
            let s = self.bar_obj_map@[o].seq;
            &&& s < self.next_item_id
            &&& self.ident_index@.contains_key(s)
            &&& self.ident_index@[s] == o
        } by {
            if o != obj {
                assert(old(self).bar_obj_map@.contains_key(o));
            }
        }
        assert(self@.bars =~= old(self)@.with_ident(obj, handle).bars);
        id
    }

    /// `create_bar`: registers the bar `bar` under the next identifier, whose string
    /// is `ident`.
    pub fn register_bar(&mut self, bar: u64, ident: u64) -> (id: Ident)
        requires
            old(self).wf(),
            old(self)@.next_item_id < u64::MAX,
        ensures
            final(self).wf(),
            final(self)@ == old(self)@.register(Registration::Bar { bar, ident }),
            final(self)@.valid(),
            final(self)@.bars == old(self)@.bars.insert(bar, Ident { handle: ident, seq: old(self)@.next_item_id }),
            final(self)@.next_item_id == old(self)@.next_item_id + 1,
            final(self)@.controls == old(self)@.controls,
            final(self)@.scrubbers == old(self)@.scrubbers,
            final(self)@.buttons == old(self)@.buttons,
            final(self)@.sliders == old(self)@.sliders,
            id == (Ident { handle: ident, seq: old(self)@.next_item_id }),
    {
        proof {
            lemma_registration_valid(self@, Registration::Bar { bar, ident });
        }
        let id = self.add_ident(bar, ident);
        assert(self@ =~= old(self)@.register(Registration::Bar { bar, ident }));
        id
    }

    /// `create_popover_item`: registers the popover item `item` under the next
    /// identifier, and `button`, which opens it, as shown by `item`.
    pub fn register_popover_item(&mut self, item: u64, button: u64, ident: u64) -> (id: Ident)
        requires
            old(self).wf(),
            old(self)@.next_item_id < u64::MAX,
        ensures
            final(self).wf(),
            final(self)@ == old(self)@.register(Registration::PopoverItem { item, button, ident }),
            final(self)@.valid(),
            final(self)@.bars == old(self)@.bars.insert(item, Ident { handle: ident, seq: old(self)@.next_item_id }),
            final(self)@.next_item_id == old(self)@.next_item_id + 1,
            final(self)@.controls == old(self)@.controls.insert(button, item),
            final(self)@.scrubbers == old(self)@.scrubbers,
            final(self)@.buttons == old(self)@.buttons,
            final(self)@.sliders == old(self)@.sliders,
            id == (Ident { handle: ident, seq: old(self)@.next_item_id }),
    {
        proof {
            lemma_registration_valid(self@, Registration::PopoverItem { item, button, ident });
        }
        let id = self.add_ident(item, ident);
        self.control_obj_map.insert(button, item);
        assert(self@ =~= old(self)@.register(Registration::PopoverItem { item, button, ident }));
        id
    }

    /// `create_label`: registers the label item `item` under the next identifier,
    /// and the text field `label` as shown by `item`.
    pub fn register_label(&mut self, item: u64, label: u64, ident: u64) -> (id: Ident)
        requires
            old(self).wf(),
            old(self)@.next_item_id < u64::MAX,
        ensures
            final(self).wf(),
            final(self)@ == old(self)@.register(Registration::Label { item, label, ident }),
            final(self)@.valid(),
            final(self)@.bars == old(self)@.bars.insert(item, Ident { handle: ident, seq: old(self)@.next_item_id }),
            final(self)@.next_item_id == old(self)@.next_item_id + 1,
            final(self)@.controls == old(self)@.controls.insert(label, item),
            final(self)@.scrubbers == old(self)@.scrubbers,
            final(self)@.buttons == old(self)@.buttons,
            final(self)@.sliders == old(self)@.sliders,
            id == (Ident { handle: ident, seq: old(self)@.next_item_id }),
    {
        proof {
            lemma_registration_valid(self@, Registration::Label { item, label, ident });
        }
        let id = self.add_ident(item, ident);
        self.control_obj_map.insert(label, item);
        assert(self@ =~= old(self)@.register(Registration::Label { item, label, ident }));
        id
    }

    /// `create_text_scrubber`: registers the scrubber item `item` under the next
    /// identifier, and the scrubber view `scrubber` with its data source `data`.
    pub fn register_text_scrubber(&mut self, item: u64, scrubber: u64, ident: u64, data: u64) -> (id: Ident)
        requires
            old(self).wf(),
            old(self)@.next_item_id < u64::MAX,
        ensures
            final(self).wf(),
            final(self)@ == old(self)@.register(Registration::TextScrubber { item, scrubber, ident, data }),
            final(self)@.valid(),
            final(self)@.bars == old(self)@.bars.insert(item, Ident { handle: ident, seq: old(self)@.next_item_id }),
            final(self)@.next_item_id == old(self)@.next_item_id + 1,
            final(self)@.controls == old(self)@.controls,
            final(self)@.scrubbers == old(self)@.scrubbers.insert(scrubber, Scrubber { data, item, scrubber, ident }),
            final(self)@.buttons == old(self)@.buttons,
            final(self)@.sliders == old(self)@.sliders,
            id == (Ident { handle: ident, seq: old(self)@.next_item_id }),
    {
        proof {
            lemma_registration_valid(self@, Registration::TextScrubber { item, scrubber, ident, data });
        }
        let id = self.add_ident(item, ident);
        self.scrubber_obj_map.insert(scrubber, Scrubber { data, item, scrubber, ident });
        assert(self@ =~= old(self)@.register(Registration::TextScrubber { item, scrubber, ident, data }));
        id
    }

    /// `create_button`: registers the button item `item` under the next identifier,
    /// the button `button` as shown by `item`, and `callback` as what a press of
    /// `button` calls.
    pub fn register_button(&mut self, item: u64, button: u64, ident: u64, callback: u64) -> (id: Ident)
        requires
            old(self).wf(),
            old(self)@.next_item_id < u64::MAX,
        ensures
            final(self).wf(),
            final(self)@ == old(self)@.register(Registration::Button { item, button, ident, callback }),
            final(self)@.valid(),
            final(self)@.bars == old(self)@.bars.insert(item, Ident { handle: ident, seq: old(self)@.next_item_id }),
            final(self)@.next_item_id == old(self)@.next_item_id + 1,
            final(self)@.controls == old(self)@.controls.insert(button, item),
            final(self)@.scrubbers == old(self)@.scrubbers,
            final(self)@.buttons == old(self)@.buttons.insert(button, callback),
            final(self)@.sliders == old(self)@.sliders,
            id == (Ident { handle: ident, seq: old(self)@.next_item_id }),
    {
        proof {
            lemma_registration_valid(self@, Registration::Button { item, button, ident, callback });
        }
        let id = self.add_ident(item, ident);
        self.control_obj_map.insert(button, item);
        self.button_cb_map.insert(button, callback);
        assert(self@ =~= old(self)@.register(Registration::Button { item, button, ident, callback }));
        id
    }

    /// `create_slider`: registers the slider item `item` under the next identifier,
    /// the slider `slider` as shown by `item`, and `callback` as what a move of
    /// `slider` calls.
    pub fn register_slider(&mut self, item: u64, slider: u64, ident: u64, callback: u64) -> (id: Ident)
        requires
            old(self).wf(),
            old(self)@.next_item_id < u64::MAX,
        ensures
            final(self).wf(),
            final(self)@ == old(self)@.register(Registration::Slider { item, slider, ident, callback }),
            final(self)@.valid(),
            final(self)@.bars == old(self)@.bars.insert(item, Ident { handle: ident, seq: old(self)@.next_item_id }),
            final(self)@.next_item_id == old(self)@.next_item_id + 1,
            final(self)@.controls == old(self)@.controls.insert(slider, item),
            final(self)@.scrubbers == old(self)@.scrubbers,
            final(self)@.buttons == old(self)@.buttons,
            final(self)@.sliders == old(self)@.sliders.insert(slider, callback),
            id == (Ident { handle: ident, seq: old(self)@.next_item_id }),
    {
        proof {
            lemma_registration_valid(self@, Registration::Slider { item, slider, ident, callback });
        }
        let id = self.add_ident(item, ident);
        self.control_obj_map.insert(slider, item);
        self.slider_cb_map.insert(slider, callback);
        assert(self@ =~= old(self)@.register(Registration::Slider { item, slider, ident, callback }));
        id
    }

    /// The identifier string of the bar or item `obj`, if it is registered.
    pub fn bar_ident(&self, obj: u64) -> (r: Option<u64>)
        ensures
            r == (if self@.bars.contains_key(obj) {
                Some(self@.bars[obj].handle)
            } else {
                None
            }),
    {
        match self.bar_obj_map.get(&obj) {
            Some(id) => Some(id.handle),
            None => None,
        }
    }

    /// `add_items_to_bar`: the identifier strings of `items`, in order, or
    /// `None` when one of them is not registered.
    pub fn item_idents(&self, items: &Vec<u64>) -> (r: Option<Vec<u64>>)
        ensures
            match r {
                Some(v) => {
                    &&& forall|i: int| 0 <= i < items@.len() ==> self@.bars.contains_key(#[trigger] items@[i])
                    &&& v@ == items@.map_values(|o: u64| self@.bars[o].handle)
                },
                None => exists|i: int| 0 <= i < items@.len() && !self@.bars.contains_key(#[trigger] items@[i]),
            },
    {
        let mut out: Vec<u64> = Vec::new();
        let mut i: usize = 0;
        while i < items.len()
            invariant
                i <= items@.len(),
                forall|j: int| 0 <= j < i ==> self@.bars.contains_key(#[trigger] items@[j]),
                out@ == items@.take(i as int).map_values(|o: u64| self@.bars[o].handle),
            decreases items@.len() - i,
        {
            match self.bar_ident(items[i]) {
                Some(h) => {
                    out.push(h);
                    assert(items@.take(i + 1).drop_last() =~= items@.take(i as int));
                    assert(out@ =~= items@.take(i + 1).map_values(|o: u64| self@.bars[o].handle));
                },
                None => {
                    return None;
                },
            }
            i = i + 1;
        }
        assert(items@.take(i as int) =~= items@);
        Some(out)
    }

    /// The item that shows the control `control`, if it is registered.
    pub fn control_item(&self, control: u64) -> (r: Option<u64>)
        ensures
            r == (if self@.controls.contains_key(control) {
                Some(self@.controls[control])
            } else {
                None
            }),
    {
        match self.control_obj_map.get(&control) {
            Some(item) => Some(*item),
            None => None,
        }
    }

    /// The record of the scrubber view `scrubber`, if it is registered.
    pub fn scrubber(&self, scrubber: u64) -> (r: Option<Scrubber>)
        ensures
            r == (if self@.scrubbers.contains_key(scrubber) {
                Some(self@.scrubbers[scrubber])
            } else {
                None
            }),
    {
        match self.scrubber_obj_map.get(&scrubber) {
            Some(s) => Some(*s),
            None => None,
        }
    }

    /// The callback of the button `button`, if it is registered.
    pub fn button_callback(&self, button: u64) -> (r: Option<u64>)
        ensures
            r == (if self@.buttons.contains_key(button) {
                Some(self@.buttons[button])
            } else {
                None
            }),
    {
        match self.button_cb_map.get(&button) {
            Some(cb) => Some(*cb),
            None => None,
        }
    }

    /// The callback of the slider `slider`, if it is registered.
    pub fn slider_callback(&self, slider: u64) -> (r: Option<u64>)
        ensures
            r == (if self@.sliders.contains_key(slider) {
                Some(self@.sliders[slider])
            } else {
                None
            }),
    {
        match self.slider_cb_map.get(&slider) {
            Some(cb) => Some(*cb),
            None => None,
        }
    }

    /// `touchBar:makeItemForIdentifier:`: the bar or item whose identifier
    /// text is `text`, if there is one (there is never more than one).
    pub fn object_for_identifier(&self, text: &[u8]) -> (r: Option<u64>)
        requires
            self.wf(),
        ensures
            match r {
                Some(o) => self@.bars.contains_key(o) && ident_text(self@.bars[o].seq as nat) == text@,
                None => forall|o: u64|
                    #[trigger] self@.bars.contains_key(o) ==> ident_text(self@.bars[o].seq as nat)
                        != text@,
            },
            forall|o: u64|
                #[trigger] self@.bars.contains_key(o) && ident_text(self@.bars[o].seq as nat)
                    == text@ ==> r == Some(o),
    {
        let parsed = parse_ident(text);
        let r = match parsed {
            None => None,
            Some(seq) => match self.ident_index.get(&seq) {
                None => None,
                Some(obj) => {
                    let o = *obj;
                    match self.bar_obj_map.get(&o) {
                        Some(id) => {
                            if id.seq == seq {
                                Some(o)
                            } else {
                                None
                            }
                        },
                        None => None,
                    }
                },
            },
        };
        proof {
            assert forall|o: u64| #[trigger]
                self@.bars.contains_key(o) && ident_text(self@.bars[o].seq as nat) == text@ implies r
                == Some(o) by {
                let s = self@.bars[o].seq;
                assert(self.bar_obj_map@.contains_key(o));
                match parsed {
                    None => {
                        assert(text@ != ident_text(s as nat));
                    },
                    Some(seq) => {
                        lemma_ident_text_injective(s as nat, seq as nat);
                    },
                }
            }
            if r is None {
                assert forall|o: u64| #[trigger]
                    self@.bars.contains_key(o) implies ident_text(self@.bars[o].seq as nat)
                    != text@ by {
                    let s = self@.bars[o].seq;
                    if ident_text(s as nat) == text@ {
                        match parsed {
                            None => {
                                assert(text@ != ident_text(s as nat));
                            },
                            Some(seq) => {
                                lemma_ident_text_injective(s as nat, seq as nat);
                                assert(self.bar_obj_map@.contains_key(o));
                            },
                        }
                    }
                }
            }
        }
        r
    }
}

/// Registering an object keeps the tables valid, gives it the next number,
/// leaves every other object's identifier as it was, and makes it the only
/// object whose identifier text is the text of that number.
pub proof fn lemma_registration_finds_object(m: TouchbarModel, obj: u64, handle: u64)
    requires
        m.valid(),
        m.next_item_id < u64::MAX,
    ensures
        m.with_ident(obj, handle).valid(),
        m.with_ident(obj, handle).bars[obj] == (Ident { handle, seq: m.next_item_id }),
        forall|o: u64|
            o != obj && #[trigger] m.bars.contains_key(o) ==> m.with_ident(obj, handle).bars[o]
                == m.bars[o],
        forall|o: u64|
            #[trigger] m.with_ident(obj, handle).bars.contains_key(o) && ident_text(
                m.with_ident(obj, handle).bars[o].seq as nat,
            ) == ident_text(m.next_item_id as nat) ==> o == obj,
{
    let after = m.with_ident(obj, handle);
    assert forall|o: u64|
        #[trigger] after.bars.contains_key(o) && ident_text(after.bars[o].seq as nat) == ident_text(
            m.next_item_id as nat,
        ) implies o == obj by {
        lemma_ident_text_injective(after.bars[o].seq as nat, m.next_item_id as nat);
    }
}

/// No identifier text names two objects.
pub proof fn lemma_identifier_names_one_object(m: TouchbarModel, a: u64, b: u64)
    requires
        m.valid(),
        m.bars.contains_key(a),
        m.bars.contains_key(b),
        ident_text(m.bars[a].seq as nat) == ident_text(m.bars[b].seq as nat),
    ensures
        a == b,
{
    lemma_ident_text_injective(m.bars[a].seq as nat, m.bars[b].seq as nat);
}

/// What a registration of a button records is what the lookups give back:
/// the button's callback, the item that shows it, and the item's identifier.
pub proof fn lemma_button_registration_read_back(
    m: TouchbarModel,
    item: u64,
    button: u64,
    ident: u64,
    callback: u64,
)
    ensures
        ({
            let after = m.register(Registration::Button { item, button, ident, callback });
            &&& after.buttons.contains_key(button) && after.buttons[button] == callback
            &&& after.controls.contains_key(button) && after.controls[button] == item
            &&& after.bars.contains_key(item) && after.bars[item].handle == ident
            &&& after.sliders == m.sliders
            &&& after.scrubbers == m.scrubbers
        }),
{
}

/// What a registration of a slider records is what the lookups give back.
pub proof fn lemma_slider_registration_read_back(
    m: TouchbarModel,
    item: u64,
    slider: u64,
    ident: u64,
    callback: u64,
)
    ensures
        ({
            let after = m.register(Registration::Slider { item, slider, ident, callback });
            &&& after.sliders.contains_key(slider) && after.sliders[slider] == callback
            &&& after.controls.contains_key(slider) && after.controls[slider] == item
            &&& after.bars.contains_key(item) && after.bars[item].handle == ident
            &&& after.buttons == m.buttons
            &&& after.scrubbers == m.scrubbers
        }),
{
}

/// What a registration of a text scrubber records is what the lookups give
/// back: the scrubber's record names its data source, item and identifier.
pub proof fn lemma_scrubber_registration_read_back(
    m: TouchbarModel,
    item: u64,
    scrubber: u64,
    ident: u64,
    data: u64,
)
    ensures
        ({
            let after = m.register(Registration::TextScrubber { item, scrubber, ident, data });
            &&& after.scrubbers.contains_key(scrubber)
            &&& after.scrubbers[scrubber].data == data
            &&& after.scrubbers[scrubber].item == item
            &&& after.scrubbers[scrubber].ident == after.bars[item].handle
        }),
{
}

/// Every registration keeps the tables valid and advances the counter by
/// exactly one; the object gets the number the counter had.
pub proof fn lemma_registration_valid(m: TouchbarModel, r: Registration)
    requires
        m.valid(),
        m.next_item_id < u64::MAX,
    ensures
        m.register(r).valid(),
        m.register(r).next_item_id == m.next_item_id + 1,
        m.register(r).bars.contains_key(r.object()),
        m.register(r).bars[r.object()] == (Ident { handle: r.ident(), seq: m.next_item_id }),
        m.register(r).bars == m.bars.insert(
            r.object(),
            Ident { handle: r.ident(), seq: m.next_item_id },
        ),
{
    let w = m.with_ident(r.object(), r.ident());
    assert(w.valid());
}

/// While every registration is of a new handle, each one adds exactly one
/// object and the tables stay `fresh`: one object per number below the
/// counter, and scrubber records naming their item's identifier string.
pub proof fn lemma_fresh_registration(m: TouchbarModel, r: Registration)
    requires
        m.valid(),
        m.fresh(),
        !m.bars.contains_key(r.object()),
        m.next_item_id < u64::MAX,
    ensures
        m.register(r).fresh(),
{
    let o = r.object();
    let w = m.with_ident(o, r.ident());
    let after = m.register(r);
    lemma_registration_valid(m, r);
    assert(after.bars.dom() =~= m.bars.dom().insert(o));
    assert forall|s: u64| s < after.next_item_id implies #[trigger] after.has_number(s) by {
        if s < m.next_item_id {
            assert(m.has_number(s));
            let p = choose|p: u64| #[trigger] m.bars.contains_key(p) && m.bars[p].seq == s;
            assert(after.bars.contains_key(p) && after.bars[p].seq == s);
        } else {
            assert(after.bars.contains_key(o) && after.bars[o].seq == s);
        }
    }
    assert forall|k: u64| #[trigger] after.scrubbers.contains_key(k) implies after.bars[after.scrubbers[k].item].handle
        == after.scrubbers[k].ident by {
        if m.scrubbers.contains_key(k) && after.scrubbers[k] == m.scrubbers[k] {
            assert(m.bars.contains_key(m.scrubbers[k].item));
        }
    }
}

/// The tables of a fresh touch bar after any sequence of registrations:
/// valid, with the counter at the number of registrations and exactly the
/// objects registered; and, when no object was registered twice, `fresh`,
/// so that the objects are numbered 0, 1, ..., each number once.
pub proof fn lemma_replay(rs: Seq<Registration>)
    requires
        rs.len() < u64::MAX,
    ensures
        TouchbarModel::replay(rs).valid(),
        TouchbarModel::replay(rs).next_item_id == rs.len(),
        forall|o: u64|
            #[trigger] TouchbarModel::replay(rs).bars.contains_key(o) <==> exists|i: int|
                0 <= i < rs.len() && #[trigger] rs[i].object() == o,
        distinct_objects(rs) ==> TouchbarModel::replay(rs).fresh(),
    decreases rs.len(),
{
    let m = TouchbarModel::replay(rs);
    if rs.len() == 0 {
        assert(m.bars.dom() =~= Set::<u64>::empty());
    } else {
        let prev = rs.drop_last();
        let pm = TouchbarModel::replay(prev);
        lemma_replay(prev);
        let r = rs.last();
        lemma_registration_valid(pm, r);
        assert forall|o: u64| #[trigger] m.bars.contains_key(o) <==> exists|i: int|
            0 <= i < rs.len() && #[trigger] rs[i].object() == o by {
            if m.bars.contains_key(o) {
                if o == r.object() {
                    assert(rs[rs.len() - 1].object() == o);
                } else {
                    assert(pm.bars.contains_key(o));
                    let i = choose|i: int| 0 <= i < prev.len() && #[trigger] prev[i].object() == o;
                    assert(rs[i] == prev[i]);
                }
            }
            if exists|i: int| 0 <= i < rs.len() && #[trigger] rs[i].object() == o {
                let i = choose|i: int| 0 <= i < rs.len() && #[trigger] rs[i].object() == o;
                if i < rs.len() - 1 {
                    assert(prev[i] == rs[i]);
                    assert(pm.bars.contains_key(o));
                }
            }
        }
        if distinct_objects(rs) {
            assert(distinct_objects(prev)) by {
                assert forall|i: int, j: int|
                    0 <= i < j < prev.len() implies #[trigger] prev[i].object()
                    != #[trigger] prev[j].object() by {
                    assert(prev[i] == rs[i] && prev[j] == rs[j]);
                }
            }
            if pm.bars.contains_key(r.object()) {
                let i = choose|i: int| 0 <= i < prev.len() && #[trigger] prev[i].object() == r.object();
                assert(prev[i] == rs[i]);
                assert(rs[i].object() != rs[rs.len() - 1].object());
            }
            lemma_fresh_registration(pm, r);
        }
    }
}

/// Handed-out numbers only grow: after more registrations the counter is
/// higher, so the next identifier text differs from every earlier one.
pub proof fn lemma_counter_grows(rs: Seq<Registration>, k: int)
    requires
        rs.len() < u64::MAX,
        0 <= k < rs.len(),
    ensures
        TouchbarModel::replay(rs.take(k)).next_item_id < TouchbarModel::replay(rs).next_item_id,
        ident_text(TouchbarModel::replay(rs.take(k)).next_item_id as nat) != ident_text(
            TouchbarModel::replay(rs).next_item_id as nat,
        ),
{
    lemma_replay(rs);
    lemma_replay(rs.take(k));
    if ident_text(TouchbarModel::replay(rs.take(k)).next_item_id as nat) == ident_text(
        TouchbarModel::replay(rs).next_item_id as nat,
    ) {
        lemma_ident_text_injective(
            TouchbarModel::replay(rs.take(k)).next_item_id as nat,
            TouchbarModel::replay(rs).next_item_id as nat,
        );
    }
}

/// What each registration does to each table, over all inputs: the object
/// gets the counter's number and the counter advances by one; exactly the
/// registration's own control, scrubber record and callback are added; every
/// other entry of every table is kept, and tables the registration does not
/// touch are unchanged.
pub proof fn lemma_registration_effects(m: TouchbarModel, r: Registration)
    ensures
        ({
            let after = m.register(r);
            let id = Ident { handle: r.ident(), seq: m.next_item_id };
            &&& m.next_item_id < u64::MAX ==> after.next_item_id == m.next_item_id + 1
            &&& after.bars == m.bars.insert(r.object(), id)
            &&& forall|o: u64| o != r.object() && #[trigger] m.bars.contains_key(o) ==> after.bars.contains_key(o) && after.bars[o] == m.bars[o]
            &&& match r {
                Registration::Bar { .. } => {
                    &&& after.controls == m.controls
                    &&& after.scrubbers == m.scrubbers
                    &&& after.buttons == m.buttons
                    &&& after.sliders == m.sliders
                },
                Registration::PopoverItem { item, button, .. } => {
                    &&& after.controls == m.controls.insert(button, item)
                    &&& forall|c: u64| c != button && #[trigger] m.controls.contains_key(c) ==> after.controls.contains_key(c) && after.controls[c] == m.controls[c]
                    &&& after.scrubbers == m.scrubbers
                    &&& after.buttons == m.buttons
                    &&& after.sliders == m.sliders
                },
                Registration::Label { item, label, .. } => {
                    &&& after.controls == m.controls.insert(label, item)
                    &&& forall|c: u64| c != label && #[trigger] m.controls.contains_key(c) ==> after.controls.contains_key(c) && after.controls[c] == m.controls[c]
                    &&& after.scrubbers == m.scrubbers
                    &&& after.buttons == m.buttons
                    &&& after.sliders == m.sliders
                },
                Registration::TextScrubber { item, scrubber, ident, data } => {
                    &&& after.controls == m.controls
                    &&& after.scrubbers == m.scrubbers.insert(scrubber, Scrubber { data, item, scrubber, ident })
                    &&& forall|k: u64| k != scrubber && #[trigger] m.scrubbers.contains_key(k) ==> after.scrubbers.contains_key(k) && after.scrubbers[k] == m.scrubbers[k]
                    &&& after.buttons == m.buttons
                    &&& after.sliders == m.sliders
                },
                Registration::Button { item, button, callback, .. } => {
                    &&& after.controls == m.controls.insert(button, item)
                    &&& after.scrubbers == m.scrubbers
                    &&& after.buttons == m.buttons.insert(button, callback)
                    &&& forall|b: u64| b != button && #[trigger] m.buttons.contains_key(b) ==> after.buttons.contains_key(b) && after.buttons[b] == m.buttons[b]
                    &&& after.sliders == m.sliders
                },
                Registration::Slider { item, slider, callback, .. } => {
                    &&& after.controls == m.controls.insert(slider, item)
                    &&& after.scrubbers == m.scrubbers
                    &&& after.buttons == m.buttons
                    &&& after.sliders == m.sliders.insert(slider, callback)
                    &&& forall|l: u64| l != slider && #[trigger] m.sliders.contains_key(l) ==> after.sliders.contains_key(l) && after.sliders[l] == m.sliders[l]
                },
            }
        }),
{
}

/// Two registrations one after the other: the first one's control, scrubber
/// record and callback survive the second unless the second reuses the same
/// handle for them.
pub proof fn lemma_second_registration_keeps_first(m: TouchbarModel, r1: Registration, r2: Registration)
    ensures
        ({
            let a1 = m.register(r1);
            let a2 = a1.register(r2);
            &&& forall|c: u64| #[trigger] a1.controls.contains_key(c) ==> a2.controls.contains_key(c)
            &&& forall|k: u64| #[trigger] a1.scrubbers.contains_key(k) ==> a2.scrubbers.contains_key(k)
            &&& forall|b: u64| #[trigger] a1.buttons.contains_key(b) ==> a2.buttons.contains_key(b)
            &&& forall|l: u64| #[trigger] a1.sliders.contains_key(l) ==> a2.sliders.contains_key(l)
            &&& forall|o: u64| #[trigger] a1.bars.contains_key(o) ==> a2.bars.contains_key(o)
            &&& match (r1, r2) {
                (Registration::Button { button: b1, callback: c1, .. }, Registration::Button { button: b2, .. }) =>
                    b1 != b2 ==> a2.buttons[b1] == c1,
                (Registration::Slider { slider: s1, callback: c1, .. }, Registration::Slider { slider: s2, .. }) =>
                    s1 != s2 ==> a2.sliders[s1] == c1,
                (Registration::TextScrubber { item, scrubber: k1, ident, data }, Registration::TextScrubber { scrubber: k2, .. }) =>
                    k1 != k2 ==> a2.scrubbers[k1] == (Scrubber { data, item, scrubber: k1, ident }),
                (Registration::PopoverItem { item, button: b1, .. }, Registration::PopoverItem { button: b2, .. }) =>
                    b1 != b2 ==> a2.controls[b1] == item,
                _ => true,
            }
        }),
{
    lemma_registration_effects(m, r1);
    lemma_registration_effects(m.register(r1), r2);
}

} // verus!
