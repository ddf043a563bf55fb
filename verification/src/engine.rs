use vstd::prelude::*;
use vstd::string::StringSliceAdditionalSpecFns;
use vstd::string::StrSliceExecFns;
use vstd::math::min;
use vstd::wrapping::u32_specs::wrapping_add;
use crate::id::{Id, StringId};
use crate::focus::{FocusableEntry, find_first_index, lemma_tab_order_sorted, next_cycle_index, sort_tab_order, spec_cycle_target};
use crate::fxmap::{map_clear, map_contains, map_get, map_insert, map_new, map_remove};
use rustc_hash::FxHashMap;
use crate::align::{AlignX, AlignY};
use crate::elements::{BorderPosition, FloatingAttachToElement, FloatingClipToElement, PointerCaptureMode};
use crate::tree::{ClosedElement, LayoutElement, LayoutTree, LayoutTreeView, can_close, close_fits, has_config, is_empty_tree, tree_view_wf, is_stable_z_order,
    open_index, spec_attach, spec_attach_clip, spec_attach_floating, spec_begin_configs, spec_close, spec_closed_info,
    spec_open, spec_open_text, spec_root_tree};

verus! {

pub const DEFAULT_MAX_ELEMENT_COUNT: i32 = 8192;
pub const DEFAULT_MAX_MEASURE_TEXT_WORD_CACHE_COUNT: i32 = 16384;

#[derive(Debug, Clone, Copy, PartialEq, Eq, Structural, Default)]
pub enum SizingType {
    #[default]
    Fit,
    Grow,
    Percent,
    Fixed,
}

/// The kind of a render command. `Empty` is the absent command.
#[derive(Debug, Clone, Copy, PartialEq, Eq, Structural, Default)]
pub enum RenderCommandType {
    #[default]
    Empty,
    Rectangle,
    Border,
    Text,
    Image,
    ScissorStart,
    ScissorEnd,
    Custom,
    GroupBegin,
    GroupEnd,
}

/// Where the pointer button is in its press/release cycle.
#[derive(Debug, Clone, Copy, PartialEq, Eq, Structural, Default)]
pub enum PointerDataInteractionState {
    PressedThisFrame,
    Pressed,
    ReleasedThisFrame,
    #[default]
    Released,
}

#[derive(Debug, Clone, Copy, PartialEq, Eq, Structural)]
pub enum ArrowDirection {
    Left,
    Right,
    Up,
    Down,
}

/// Actions that can be performed on a focused text input.
#[derive(Debug, Clone)]
pub enum TextInputAction {
    MoveLeft { shift: bool },
    MoveRight { shift: bool },
    MoveWordLeft { shift: bool },
    MoveWordRight { shift: bool },
    MoveHome { shift: bool },
    MoveEnd { shift: bool },
    MoveUp { shift: bool },
    MoveDown { shift: bool },
    Backspace,
    Delete,
    BackspaceWord,
    DeleteWord,
    SelectAll,
    Copy,
    Cut,
    Paste { text: String },
    Submit,
    Undo,
    Redo,
}

#[derive(Debug, Clone, Copy, PartialEq, Eq, Structural)]
pub enum ElementConfigType {
    Shared,
    Text,
    Image,
    Floating,
    Custom,
    Clip,
    Border,
    Aspect,
    TextInput,
}

#[derive(Debug, Clone, Copy, PartialEq, Eq, Structural, Default)]
pub struct PaddingConfig {
    pub left: u16,
    pub right: u16,
    pub top: u16,
    pub bottom: u16,
}

#[derive(Debug, Clone, Copy, PartialEq, Eq, Structural, Default)]
pub struct ChildAlignmentConfig {
    pub x: AlignX,
    pub y: AlignY,
}

/// The flips of a visual rotation (the angle and pivot are kept by the caller).
#[derive(Debug, Clone, Copy, PartialEq, Eq, Structural, Default)]
pub struct VisualRotationConfig {
    /// Mirror horizontally.
    pub flip_x: bool,
    /// Mirror vertically.
    pub flip_y: bool,
}

/// The flips of a shape rotation (the angle is kept by the caller).
#[derive(Debug, Clone, Copy, PartialEq, Eq, Structural, Default)]
pub struct ShapeRotationConfig {
    /// Mirror horizontally (applied before rotation).
    pub flip_x: bool,
    /// Mirror vertically (applied before rotation).
    pub flip_y: bool,
}

#[derive(Debug, Clone, Copy, PartialEq, Eq, Structural, Default)]
pub struct FloatingAttachPoints {
    pub element_x: AlignX,
    pub element_y: AlignY,
    pub parent_x: AlignX,
    pub parent_y: AlignY,
}


/// A configuration attached to an element: its kind and its index in the
/// store of configurations of that kind.
#[derive(Debug, Clone, Copy, PartialEq, Eq, Structural)]
pub struct ElementConfig {
    pub config_type: ElementConfigType,
    pub config_index: usize,
}

/// The first position in `configs[start..start + length]` holding a
/// configuration of kind `t`, or -1.
pub open spec fn first_config_pos(configs: Seq<ElementConfig>, start: int, length: int, t: ElementConfigType) -> int
    decreases length,
{
    if length <= 0 {
        -1
    } else if configs[start].config_type == t {
        start
    } else {
        first_config_pos(configs, start + 1, length - 1, t)
    }
}

/// A found position holds a configuration of the kind, within the range,
/// with none of the kind before it; -1 means there is none in the range.
pub proof fn lemma_first_config_pos(configs: Seq<ElementConfig>, start: int, length: int, t: ElementConfigType)
    requires
        start >= 0,
    ensures
        ({
            let p = first_config_pos(configs, start, length, t);
            &&& p >= 0 ==> start <= p < start + length && configs[p].config_type == t
            &&& p >= 0 ==> forall|j: int| start <= j < p ==> configs[j].config_type != t
            &&& p < 0 ==> p == -1 && forall|j: int| start <= j < start + length ==> configs[j].config_type != t
        }),
    decreases length,
{
    if length > 0 && configs[start].config_type != t {
        lemma_first_config_pos(configs, start + 1, length - 1, t);
        let p = first_config_pos(configs, start, length, t);
        assert(p == first_config_pos(configs, start + 1, length - 1, t));
        if p >= 0 {
            assert forall|j: int| start <= j < p implies configs[j].config_type != t by {
                if j > start {
                    assert(start + 1 <= j < p);
                }
            }
        } else {
            assert forall|j: int| start <= j < start + length implies configs[j].config_type != t by {
                if j > start {
                    assert(start + 1 <= j < start + 1 + (length - 1));
                }
            }
        }
    }
}

/// The store index of the first configuration of kind `config_type` among an
/// element's configurations `configs[start..start + length]`.
pub fn find_element_config_index(
    configs: &Vec<ElementConfig>,
    start: usize,
    length: i32,
    config_type: ElementConfigType,
) -> (r: Option<usize>)
    requires
        length >= 0 ==> start + length <= configs@.len(),
    ensures
        ({
            let p = first_config_pos(configs@, start as int, length as int, config_type);
            r == (if p >= 0 { Some(configs@[p].config_index) } else { None })
        }),
{
    if length <= 0 {
        return None;
    }
    let len = length as usize;
    let total = configs.len();
    let mut i: usize = 0;
    while i < len
        invariant
            len == length,
            total == configs@.len(),
            start + len <= configs@.len(),
            0 <= i <= len,
            first_config_pos(configs@, start as int, length as int, config_type)
                == first_config_pos(configs@, start + i, length - i, config_type),
        decreases len - i,
    {
        let config = configs[start + i];
        if config.config_type == config_type {
            return Some(config.config_index);
        }
        i = i + 1;
    }
    None
}

/// Whether an element has a configuration of kind `config_type` among
/// `configs[start..start + length]`.
pub fn element_has_config(
    configs: &Vec<ElementConfig>,
    start: usize,
    length: i32,
    config_type: ElementConfigType,
) -> (r: bool)
    requires
        length >= 0 ==> start + length <= configs@.len(),
    ensures
        r == (first_config_pos(configs@, start as int, length as int, config_type) >= 0),
{
    find_element_config_index(configs, start, length, config_type).is_some()
}

/// The total gap between `children_length` children laid out with
/// `child_gap` between neighbors.
pub fn child_gap_total(children_length: u16, child_gap: u16) -> (r: u32)
    ensures
        r == (if children_length == 0 { 0 } else { (children_length - 1) * child_gap }),
{
    let gaps: u32 = if children_length == 0 { 0 } else { (children_length - 1) as u32 };
    assert(gaps * child_gap <= 65535 * 65535) by (nonlinear_arith)
        requires
            gaps <= 65535,
            child_gap <= 65535,
    ;
    gaps * child_gap as u32
}

impl PaddingConfig {
    /// Left plus right padding.
    pub fn horizontal(&self) -> (r: u16)
        requires
            self.left + self.right <= u16::MAX,
        ensures
            r == self.left + self.right,
    {
        self.left + self.right
    }

    /// Top plus bottom padding.
    pub fn vertical(&self) -> (r: u16)
        requires
            self.top + self.bottom <= u16::MAX,
        ensures
            r == self.top + self.bottom,
    {
        self.top + self.bottom
    }
}

/// The clipping and scrolling flags of an element (the child offset is kept by the caller).
#[derive(Debug, Clone, Copy, PartialEq, Eq, Structural, Default)]
pub struct ClipConfig {
    pub horizontal: bool,
    pub vertical: bool,
    pub scroll_x: bool,
    pub scroll_y: bool,
}

#[derive(Debug, Clone, Copy, PartialEq, Eq, Structural, Default)]
pub struct BorderWidth {
    pub left: u16,
    pub right: u16,
    pub top: u16,
    pub bottom: u16,
    pub between_children: u16,
}

impl BorderWidth {
    /// True when no side and no divider has a width.
    pub fn is_zero(&self) -> (r: bool)
        ensures
            r == (self.left == 0 && self.right == 0 && self.top == 0 && self.bottom == 0
                && self.between_children == 0),
    {
        self.left == 0 && self.right == 0 && self.top == 0 && self.bottom == 0
            && self.between_children == 0
    }
}

/// The widths and placement of an element's border (its color is kept by the caller).
#[derive(Debug, Clone, Copy, PartialEq, Eq, Structural, Default)]
pub struct BorderConfig {
    pub width: BorderWidth,
    pub position: BorderPosition,
}

/// The integer part of a floating element's configuration (the pixel offset
/// is kept by the caller).
#[derive(Debug, Clone, Copy, PartialEq, Eq, Structural, Default)]
pub struct FloatingConfig {
    pub parent_id: u32,
    pub z_index: i16,
    pub attach_points: FloatingAttachPoints,
    pub pointer_capture_mode: PointerCaptureMode,
    pub attach_to: FloatingAttachToElement,
    pub clip_to: FloatingClipToElement,
}

/// One mixing round of the one-at-a-time hash: add `v`, then
/// `h += h << 10; h ^= h >> 6`, all modulo 2^32.
pub open spec fn mix32(h: u32, v: u32) -> u32 {
    let a = wrapping_add(h, v);
    let b = wrapping_add(a, a << 10u32);
    b ^ (b >> 6u32)
}

/// The one-at-a-time hash state after absorbing `bytes`, starting from `seed`.
pub open spec fn absorb32(seed: u32, bytes: Seq<u8>) -> u32
    decreases bytes.len(),
{
    if bytes.len() == 0 {
        seed
    } else {
        mix32(absorb32(seed, bytes.drop_last()), bytes.last() as u32)
    }
}

/// The final avalanche of the one-at-a-time hash:
/// `h += h << 3; h ^= h >> 11; h += h << 15`, modulo 2^32.
pub open spec fn finish32(h: u32) -> u32 {
    let a = wrapping_add(h, h << 3u32);
    let b = a ^ (a >> 11u32);
    wrapping_add(b, b << 15u32)
}

/// The id that a label hashes to under `seed` (never the raw finished hash:
/// one is added so that a hash of 0 does not collide with "no element").
pub open spec fn spec_label_id(key: Seq<u8>, seed: u32) -> u32 {
    wrapping_add(finish32(absorb32(seed, key)), 1)
}

/// The id of a label combined with an offset (for elements generated in a loop).
pub open spec fn spec_label_offset_id(key: Seq<u8>, offset: u32, seed: u32) -> u32 {
    wrapping_add(finish32(mix32(absorb32(seed, key), offset)), 1)
}

/// The id of the `offset`-th anonymous child under the element whose id is `seed`.
pub open spec fn spec_number_id(offset: u32, seed: u32) -> u32 {
    wrapping_add(finish32(mix32(seed, wrapping_add(offset, 48))), 1)
}

/// One mixing round on 64-bit state.
pub open spec fn mix64(h: u64, v: u64) -> u64 {
    let a = vstd::wrapping::u64_specs::wrapping_add(h, v);
    let b = vstd::wrapping::u64_specs::wrapping_add(a, a << 10u64);
    b ^ (b >> 6u64)
}

/// The 64-bit one-at-a-time state after absorbing `bytes` from zero.
pub open spec fn absorb64(bytes: Seq<u8>) -> u64
    decreases bytes.len(),
{
    if bytes.len() == 0 {
        0
    } else {
        mix64(absorb64(bytes.drop_last()), bytes.last() as u64)
    }
}

/// The hash that keys the text measurement cache: the 64-bit hash of the text
/// reduced modulo `u32::MAX`, then the font key bytes, the font size and the
/// letter spacing mixed in, then the final avalanche, plus one.
pub open spec fn spec_text_config_hash(
    text: Seq<u8>,
    font_key: Seq<u8>,
    font_size: u16,
    letter_spacing: u16,
) -> u32 {
    let start = (absorb64(text) % (u32::MAX as u64)) as u32;
    let with_font = absorb32(start, font_key);
    let with_size = mix32(with_font, font_size as u32);
    let with_spacing = mix32(with_size, letter_spacing as u32);
    wrapping_add(finish32(with_spacing), 1)
}

proof fn lemma_absorb32_step(seed: u32, bytes: Seq<u8>, i: int)
    requires
        0 <= i < bytes.len(),
    ensures
        absorb32(seed, bytes.take(i + 1)) == mix32(absorb32(seed, bytes.take(i)), bytes[i] as u32),
{
    assert(bytes.take(i + 1).drop_last() =~= bytes.take(i));
}

proof fn lemma_absorb64_step(bytes: Seq<u8>, i: int)
    requires
        0 <= i < bytes.len(),
    ensures
        absorb64(bytes.take(i + 1)) == mix64(absorb64(bytes.take(i)), bytes[i] as u64),
{
    assert(bytes.take(i + 1).drop_last() =~= bytes.take(i));
}

/// Absorbs `bytes` into the 32-bit state `h`.
fn absorb_bytes(seed: u32, bytes: &[u8]) -> (h: u32)
    ensures
        h == absorb32(seed, bytes@),
{
    let mut hash: u32 = seed;
    let mut i: usize = 0;
    while i < bytes.len()
        invariant
            0 <= i <= bytes@.len(),
            hash == absorb32(seed, bytes@.take(i as int)),
        decreases bytes.len() - i,
    {
        proof {
            lemma_absorb32_step(seed, bytes@, i as int);
        }
        hash = hash.wrapping_add(bytes[i] as u32);
        hash = hash.wrapping_add(hash << 10u32);
        hash = hash ^ (hash >> 6u32);
        i = i + 1;
    }
    assert(bytes@.take(bytes@.len() as int) =~= bytes@);
    hash
}

/// The final avalanche step.
fn finish(h: u32) -> (r: u32)
    ensures
        r == finish32(h),
{
    let mut hash = h;
    hash = hash.wrapping_add(hash << 3u32);
    hash = hash ^ (hash >> 11u32);
    hash = hash.wrapping_add(hash << 15u32);
    hash
}

/// One mixing round.
fn mix(h: u32, v: u32) -> (r: u32)
    ensures
        r == mix32(h, v),
{
    let mut hash = h.wrapping_add(v);
    hash = hash.wrapping_add(hash << 10u32);
    hash ^ (hash >> 6u32)
}

/// The 64-bit one-at-a-time hash of `data`, from a zero state, without the
/// final avalanche.
pub fn hash_data_scalar(data: &[u8]) -> (h: u64)
    ensures
        h == absorb64(data@),
{
    let mut hash: u64 = 0;
    let mut i: usize = 0;
    while i < data.len()
        invariant
            0 <= i <= data@.len(),
            hash == absorb64(data@.take(i as int)),
        decreases data.len() - i,
    {
        proof {
            lemma_absorb64_step(data@, i as int);
        }
        hash = hash.wrapping_add(data[i] as u64);
        hash = hash.wrapping_add(hash << 10u64);
        hash = hash ^ (hash >> 6u64);
        i = i + 1;
    }
    assert(data@.take(data@.len() as int) =~= data@);
    hash
}

/// Hashes a label into an element id under `seed`.
pub fn hash_string(key: &str, seed: u32) -> (r: Id)
    ensures
        r.id == spec_label_id(key.spec_bytes(), seed),
        r.base_id == r.id,
        r.offset == 0,
        r.string_id.text@ == key@,
{
    let h = finish(absorb_bytes(seed, key.as_bytes()));
    Id {
        id: h.wrapping_add(1),
        offset: 0,
        base_id: h.wrapping_add(1),
        string_id: StringId::from_str(key),
    }
}

/// Hashes a label together with an index into an element id under `seed`;
/// `base_id` is the id of the label alone.
pub fn hash_string_with_offset(key: &str, offset: u32, seed: u32) -> (r: Id)
    ensures
        r.id == spec_label_offset_id(key.spec_bytes(), offset, seed),
        r.base_id == spec_label_id(key.spec_bytes(), seed),
        r.offset == offset,
        r.string_id.text@ == key@,
{
    let base = absorb_bytes(seed, key.as_bytes());
    let hash = finish(mix(base, offset));
    let base_final = finish(base);
    Id {
        id: hash.wrapping_add(1),
        offset,
        base_id: base_final.wrapping_add(1),
        string_id: StringId::from_str(key),
    }
}

/// The id of the `offset`-th anonymous child of the element whose id is `seed`.
pub fn hash_number(offset: u32, seed: u32) -> (r: Id)
    ensures
        r.id == spec_number_id(offset, seed),
        r.offset == offset,
        r.base_id == seed,
        r.string_id.text@ == Seq::<char>::empty(),
{
    let hash = finish(mix(seed, offset.wrapping_add(48)));
    Id { id: hash.wrapping_add(1), offset, base_id: seed, string_id: StringId::empty() }
}

/// The key of the text measurement cache for a text and the font settings
/// that change its measured size.
pub fn hash_string_contents_with_config(
    text: &str,
    font_key: &str,
    font_size: u16,
    letter_spacing: u16,
) -> (h: u32)
    ensures
        h == spec_text_config_hash(text.spec_bytes(), font_key.spec_bytes(), font_size, letter_spacing),
{
    let scalar = hash_data_scalar(text.as_bytes());
    let start: u32 = (scalar % (u32::MAX as u64)) as u32;
    let mut hash = absorb_bytes(start, font_key.as_bytes());
    hash = mix(hash, font_size as u32);
    hash = mix(hash, letter_spacing as u32);
    finish(hash).wrapping_add(1)
}


/// Hover flags of an element: whether the pointer is over it now, and
/// whether that changed this frame (the time it became hovered is kept by the caller).
#[derive(Debug, Clone, Copy, PartialEq, Eq, Structural, Default)]
pub struct LayoutElementInteractionState {
    pub hovered: bool,
    pub just_added: bool,
    pub just_removed: bool,
}

impl LayoutElementInteractionState {
    /// Whether the pointer is over the element.
    pub fn has(&self) -> (r: bool)
        ensures
            r == self.hovered,
    {
        self.hovered
    }
}

/// What the engine remembers of an element across frames, keyed by its id.
#[derive(Debug)]
pub struct LayoutElementHashMapItem {
    pub element_id: Id,
    pub layout_element_index: i32,
    pub hover: LayoutElementInteractionState,
    pub is_text_input: bool,
    pub preserve_focus: bool,
    pub generation: u32,
    pub collision: bool,
    pub collapsed: bool,
}

/// What declaring an element did to its entry in the element map.
#[derive(Debug, Clone, Copy, PartialEq, Eq, Structural)]
pub enum MapItemOutcome {
    /// First time this id is seen: a fresh entry.
    Inserted,
    /// The id was known from an earlier frame; its entry now belongs to this
    /// frame. `hover_reset` when it was absent for more than one frame, which
    /// forgets its hover state (and the caller forgets its callbacks and hover time).
    Refreshed { hover_reset: bool },
    /// The id was already declared in this frame: a duplicate id.
    Collision,
}

/// The fresh entry of an element declared for the first time in a frame numbered `generation`.
pub open spec fn spec_new_item(element_id: Id, index: i32, generation: u32) -> LayoutElementHashMapItem {
    LayoutElementHashMapItem {
        element_id: element_id,
        layout_element_index: index,
        hover: LayoutElementInteractionState { hovered: false, just_added: false, just_removed: false },
        is_text_input: false,
        preserve_focus: false,
        generation: (generation + 1) as u32,
        collision: false,
        collapsed: false,
    }
}

/// Whether an existing entry gets refreshed (rather than flagged as a duplicate)
/// when its id is declared in the frame numbered `generation`.
pub open spec fn spec_item_refreshable(item: LayoutElementHashMapItem, generation: u32) -> bool {
    item.generation <= generation
}

/// Whether refreshing `item` in frame `generation` forgets its hover state.
pub open spec fn spec_hover_reset(item: LayoutElementHashMapItem, generation: u32) -> bool {
    generation - item.generation > 1
}

/// The element map after declaring `element_id` at `index` in frame `generation`.
pub open spec fn spec_add_item(
    map: Map<u32, LayoutElementHashMapItem>,
    element_id: Id,
    index: i32,
    generation: u32,
) -> Map<u32, LayoutElementHashMapItem> {
    let key = element_id.id;
    if map.contains_key(key) {
        let item = map[key];
        if spec_item_refreshable(item, generation) {
            map.insert(key, LayoutElementHashMapItem {
                element_id: element_id,
                layout_element_index: index,
                hover: if spec_hover_reset(item, generation) {
                    LayoutElementInteractionState { hovered: false, just_added: false, just_removed: false }
                } else {
                    item.hover
                },
                is_text_input: false,
                preserve_focus: false,
                generation: (generation + 1) as u32,
                collision: false,
                collapsed: item.collapsed,
            })
        } else {
            map.insert(key, LayoutElementHashMapItem { collision: true, ..item })
        }
    } else {
        map.insert(key, spec_new_item(element_id, index, generation))
    }
}

/// What declaring `element_id` in frame `generation` reports.
pub open spec fn spec_add_outcome(
    map: Map<u32, LayoutElementHashMapItem>,
    element_id: Id,
    generation: u32,
) -> MapItemOutcome {
    let key = element_id.id;
    if map.contains_key(key) {
        if spec_item_refreshable(map[key], generation) {
            MapItemOutcome::Refreshed { hover_reset: spec_hover_reset(map[key], generation) }
        } else {
            MapItemOutcome::Collision
        }
    } else {
        MapItemOutcome::Inserted
    }
}

/// A text input's editing state as far as the engine reads and writes it.
#[derive(Debug)]
pub struct TextEditState {
    pub text: String,
    pub cursor_pos: usize,
    pub selection_anchor: Option<usize>,
}

/// The selection anchor after the caret moves from `cursor` to `new_pos`
/// along visual lines: a shifted move starts a selection at the old caret
/// (unless one is under way) and a selection that would be empty ends; an
/// unshifted move ends the selection.
pub open spec fn spec_moved_anchor(anchor: Option<usize>, cursor: usize, new_pos: usize, shift: bool) -> Option<usize> {
    let started = if shift && anchor is None { Some(cursor) } else { anchor };
    if !shift { None } else if started == Some(new_pos) { None } else { started }
}

/// The selection anchor after a click puts the caret elsewhere: a shifted
/// click extends the selection from the old caret (unless one is under way),
/// a plain click ends it.
pub open spec fn spec_clicked_anchor(anchor: Option<usize>, cursor: usize, shift: bool) -> Option<usize> {
    if shift {
        if anchor is None { Some(cursor) } else { anchor }
    } else {
        None
    }
}

impl TextEditState {
    /// An empty text with the cursor at the start and no selection.
    pub fn new() -> (r: TextEditState)
        ensures
            r.text@ == Seq::<char>::empty(),
            r.cursor_pos == 0,
            r.selection_anchor is None,
    {
        TextEditState { text: String::new(), cursor_pos: 0, selection_anchor: None }
    }

    /// Moves the caret to `new_pos` along visual lines (Home, End, Up, Down
    /// in a multiline input), extending the selection when `shift` is held.
    pub fn move_caret_to(&mut self, new_pos: usize, shift: bool)
        ensures
            final(self).text == old(self).text,
            final(self).cursor_pos == new_pos,
            final(self).selection_anchor == spec_moved_anchor(old(self).selection_anchor, old(self).cursor_pos, new_pos, shift),
    {
        if shift && self.selection_anchor.is_none() {
            self.selection_anchor = Some(self.cursor_pos);
        }
        self.cursor_pos = new_pos;
        if !shift {
            self.selection_anchor = None;
        } else {
            let clears = match self.selection_anchor {
                Some(a) => a == self.cursor_pos,
                None => false,
            };
            if clears {
                self.selection_anchor = None;
            }
        }
    }

    /// Puts the caret at `pos` where the text was clicked, extending the
    /// selection when `shift` is held.
    pub fn click_caret_to(&mut self, pos: usize, shift: bool)
        ensures
            final(self).text == old(self).text,
            final(self).cursor_pos == pos,
            final(self).selection_anchor == spec_clicked_anchor(old(self).selection_anchor, old(self).cursor_pos, shift),
    {
        if shift {
            if self.selection_anchor.is_none() {
                self.selection_anchor = Some(self.cursor_pos);
            }
        } else {
            self.selection_anchor = None;
        }
        self.cursor_pos = pos;
    }
}

/// What an edit is recorded as in the undo history.
#[derive(Debug, Clone, Copy, PartialEq, Eq, Structural)]
pub enum UndoActionKind {
    InsertChar,
    Backspace,
    Delete,
    DeleteWord,
    Cut,
    Paste,
}

/// The undo entry an editing action records before it runs, if any: the
/// actions that change the text, and Enter in a multiline input (which
/// inserts a line break). Moves, selection, copy and undo/redo record none.
pub open spec fn spec_undo_kind(action: TextInputAction, is_multiline: bool) -> Option<UndoActionKind> {
    match action {
        TextInputAction::Backspace => Some(UndoActionKind::Backspace),
        TextInputAction::Delete => Some(UndoActionKind::Delete),
        TextInputAction::BackspaceWord => Some(UndoActionKind::DeleteWord),
        TextInputAction::DeleteWord => Some(UndoActionKind::DeleteWord),
        TextInputAction::Cut => Some(UndoActionKind::Cut),
        TextInputAction::Paste { .. } => Some(UndoActionKind::Paste),
        TextInputAction::Submit => if is_multiline { Some(UndoActionKind::InsertChar) } else { None },
        _ => None,
    }
}

/// How an editing action is carried out on the focused text input: the
/// input, its settings this frame (single line without a length limit when
/// it was not declared this frame), the undo entry recorded before the edit,
/// and whether the action submits the input (Enter in a single-line input),
/// which leaves its text as it is.
#[derive(Debug, Clone, Copy, PartialEq, Eq, Structural)]
pub struct TextActionPlan {
    pub element_id: u32,
    pub settings: TextInputSettings,
    pub undo: Option<UndoActionKind>,
    pub submit: bool,
}

/// What an editing action reports once carried out: the input submitted,
/// or the input whose text it changed.
#[derive(Debug, Clone, Copy, PartialEq, Eq, Structural)]
pub struct TextActionEvents {
    pub submitted: Option<u32>,
    pub changed: Option<u32>,
}

/// The plan for `action`: none when no text input has focus (the key is
/// then not consumed).
pub open spec fn spec_plan_text_input_action(v: PlyContextView, action: TextInputAction) -> Option<TextActionPlan> {
    let id = v.focused_element_id;
    if id != 0 && v.text_edit_states.contains_key(id) {
        let p = first_pos_u32(v.text_input_element_ids, id);
        let settings = if p >= 0 { v.text_input_configs[p] } else { TextInputSettings { is_multiline: false, max_length: None } };
        Some(TextActionPlan {
            element_id: id,
            settings,
            undo: spec_undo_kind(action, settings.is_multiline),
            submit: action is Submit && !settings.is_multiline,
        })
    } else {
        None
    }
}

/// What carrying out `plan` reports, given the input's text before and
/// after the edit: a submit reports the input as submitted and nothing
/// else; any other action reports a change when the text changed.
pub fn text_action_events(plan: &TextActionPlan, before: &String, after: &String) -> (r: TextActionEvents)
    ensures
        r.submitted == (if plan.submit { Some(plan.element_id) } else { None }),
        r.changed == (if !plan.submit && before@ != after@ { Some(plan.element_id) } else { None }),
{
    if plan.submit {
        TextActionEvents { submitted: Some(plan.element_id), changed: None }
    } else if before.eq(after) {
        TextActionEvents { submitted: None, changed: None }
    } else {
        TextActionEvents { submitted: None, changed: Some(plan.element_id) }
    }
}

/// The undo entry an editing action records before it runs, if any: the
/// actions that change the text, and Enter in a multiline input (which
/// inserts a line break). Moves, selection, copy and undo/redo record none.
pub fn undo_kind_for_action(action: &TextInputAction, is_multiline: bool) -> (r: Option<UndoActionKind>)
    ensures
        r == spec_undo_kind(*action, is_multiline),
{
    match action {
        TextInputAction::Backspace => Some(UndoActionKind::Backspace),
        TextInputAction::Delete => Some(UndoActionKind::Delete),
        TextInputAction::BackspaceWord => Some(UndoActionKind::DeleteWord),
        TextInputAction::DeleteWord => Some(UndoActionKind::DeleteWord),
        TextInputAction::Cut => Some(UndoActionKind::Cut),
        TextInputAction::Paste { .. } => Some(UndoActionKind::Paste),
        TextInputAction::Submit => if is_multiline { Some(UndoActionKind::InsertChar) } else { None },
        _ => None,
    }
}

/// The per-frame settings of a text input that the engine consults.
#[derive(Debug, Clone, Copy, PartialEq, Eq, Structural, Default)]
pub struct TextInputSettings {
    pub is_multiline: bool,
    pub max_length: Option<usize>,
}

/// Explicit arrow-key focus targets of an element.
#[derive(Debug, Clone, Copy, PartialEq, Eq, Structural, Default)]
pub struct FocusNeighbors {
    pub focus_left: Option<u32>,
    pub focus_right: Option<u32>,
    pub focus_up: Option<u32>,
    pub focus_down: Option<u32>,
}

/// A change of keyboard focus: the element that lost focus and the one that
/// gained it (0 for none). When `previous == current` nothing changed and no
/// focus callback is due.
#[derive(Debug, Clone, Copy, PartialEq, Eq, Structural)]
pub struct FocusChange {
    pub previous: u32,
    pub current: u32,
}

/// The engine state after focus moves to `new_id` (0 for none): unchanged when
/// it already had focus; otherwise the focused element changes, and clearing
/// focus also forgets that it came from the keyboard.
pub open spec fn spec_change_focus(v: PlyContextView, new_id: u32) -> PlyContextView {
    if v.focused_element_id == new_id {
        v
    } else {
        PlyContextView {
            focused_element_id: new_id,
            focus_from_keyboard: if new_id == 0 { false } else { v.focus_from_keyboard },
            ..v
        }
    }
}

/// The explicit target of an arrow key from an element with these neighbors.
pub open spec fn spec_arrow_target(n: FocusNeighbors, direction: ArrowDirection) -> Option<u32> {
    match direction {
        ArrowDirection::Left => n.focus_left,
        ArrowDirection::Right => n.focus_right,
        ArrowDirection::Up => n.focus_up,
        ArrowDirection::Down => n.focus_down,
    }
}

/// The engine after an arrow key in `direction`, and the focus change it
/// reports: with nothing focused nothing happens; otherwise focus is marked
/// as coming from the keyboard and moves to the focused element's neighbour
/// in that direction, if it has one.
pub open spec fn spec_arrow_focus(v: PlyContextView, direction: ArrowDirection) -> (PlyContextView, FocusChange) {
    let f = v.focused_element_id;
    if f == 0 {
        (v, FocusChange { previous: 0, current: 0 })
    } else {
        let marked = PlyContextView { focus_from_keyboard: true, ..v };
        if v.focus_neighbors.contains_key(f) && spec_arrow_target(v.focus_neighbors[f], direction) is Some {
            let t = spec_arrow_target(v.focus_neighbors[f], direction)->0;
            (spec_change_focus(marked, t), FocusChange { previous: f, current: t })
        } else {
            (marked, FocusChange { previous: f, current: f })
        }
    }
}

/// Whether `id` is already registered as focusable this frame.
pub open spec fn spec_is_focusable(entries: Seq<FocusableEntry>, id: u32) -> bool {
    exists|i: int| 0 <= i < entries.len() && #[trigger] entries[i].element_id == id
}

/// Whether some id in `ids` has the element id `id`.
pub open spec fn spec_ids_contain(ids: Seq<Id>, id: u32) -> bool {
    exists|i: int| 0 <= i < ids.len() && #[trigger] ids[i].id == id
}

/// The next press state of the pointer button given whether it is held now:
/// a press lasts one frame as `PressedThisFrame`, then `Pressed`; a release
/// likewise goes through `ReleasedThisFrame` to `Released`.
pub open spec fn spec_next_pointer_state(state: PointerDataInteractionState, is_down: bool) -> PointerDataInteractionState {
    if is_down {
        match state {
            PointerDataInteractionState::PressedThisFrame => PointerDataInteractionState::Pressed,
            PointerDataInteractionState::Pressed => PointerDataInteractionState::Pressed,
            _ => PointerDataInteractionState::PressedThisFrame,
        }
    } else {
        match state {
            PointerDataInteractionState::ReleasedThisFrame => PointerDataInteractionState::Released,
            PointerDataInteractionState::Released => PointerDataInteractionState::Released,
            _ => PointerDataInteractionState::ReleasedThisFrame,
        }
    }
}

/// The first position of `x` in `s`, or -1.
pub open spec fn first_pos_u32(s: Seq<u32>, x: u32) -> int {
    if exists|i: int| 0 <= i < s.len() && s[i] == x {
        choose|i: int| 0 <= i < s.len() && s[i] == x && forall|j: int| 0 <= j < i ==> s[j] != x
    } else {
        -1
    }
}

/// Whether a press on the elements `over` (innermost last) lands on a text input.
pub open spec fn spec_press_hits_text_input(map: Map<u32, LayoutElementHashMapItem>, over: Seq<Id>) -> bool {
    over.len() > 0 && map.contains_key(over.last().id) && map[over.last().id].is_text_input
}

/// Whether some element under the pointer keeps focus when pressed.
pub open spec fn spec_press_preserves_focus(map: Map<u32, LayoutElementHashMapItem>, over: Seq<Id>) -> bool {
    exists|i: int|
        0 <= i < over.len() && map.contains_key(#[trigger] over[i].id) && map[over[i].id].preserve_focus
}

/// The hover flags after a frame in which the pointer is (`inside`) or is not over the element.
pub open spec fn spec_next_hover(h: LayoutElementInteractionState, inside: bool) -> LayoutElementInteractionState {
    if inside {
        if !h.hovered {
            LayoutElementInteractionState { hovered: true, just_added: true, ..h }
        } else {
            LayoutElementInteractionState { just_added: false, ..h }
        }
    } else {
        if h.hovered {
            LayoutElementInteractionState { hovered: false, just_removed: true, ..h }
        } else {
            LayoutElementInteractionState { just_removed: false, ..h }
        }
    }
}

/// What a pointer update reports, abstractly.
pub struct PointerEventsView {
    pub focus: FocusChange,
    pub press_targets: Seq<Id>,
    pub release_targets: Seq<Id>,
    pub text_input_click: Option<u32>,
}

/// The engine state and the reported events after a pointer update with the
/// elements `over` under the pointer (outermost first) and the button held
/// (`is_down`) or not.
pub open spec fn spec_pointer_update(o: PlyContextView, over: Seq<Id>, is_down: bool) -> (PlyContextView, PointerEventsView) {
    let st = spec_next_pointer_state(o.pointer_state, is_down);
    let base = PlyContextView { pointer_over_ids: over, pointer_state: st, ..o };
    let unchanged = FocusChange { previous: o.focused_element_id, current: o.focused_element_id };
    if st == PointerDataInteractionState::PressedThisFrame {
        if spec_press_hits_text_input(o.element_map, over) {
            let top = over.last().id;
            let unmarked = PlyContextView { focus_from_keyboard: false, ..base };
            (
                PlyContextView { pressed_element_ids: over, ..spec_change_focus(unmarked, top) },
                PointerEventsView {
                    focus: FocusChange { previous: o.focused_element_id, current: top },
                    press_targets: Seq::empty(),
                    release_targets: Seq::empty(),
                    text_input_click: Some(top),
                },
            )
        } else {
            let clears = !spec_press_preserves_focus(o.element_map, over) && o.focused_element_id != 0;
            let after = if clears { spec_change_focus(base, 0) } else { base };
            (
                PlyContextView { pressed_element_ids: over, ..after },
                PointerEventsView {
                    focus: FocusChange {
                        previous: o.focused_element_id,
                        current: if clears { 0 } else { o.focused_element_id },
                    },
                    press_targets: over,
                    release_targets: Seq::empty(),
                    text_input_click: None,
                },
            )
        }
    } else if st == PointerDataInteractionState::ReleasedThisFrame {
        (
            PlyContextView { pressed_element_ids: Seq::empty(), ..base },
            PointerEventsView {
                focus: unchanged,
                press_targets: Seq::empty(),
                release_targets: o.pressed_element_ids,
                text_input_click: None,
            },
        )
    } else {
        (
            base,
            PointerEventsView {
                focus: unchanged,
                press_targets: Seq::empty(),
                release_targets: Seq::empty(),
                text_input_click: None,
            },
        )
    }
}

/// The abstract state of the engine core.
pub struct PlyContextView {
    pub max_element_count: i32,
    pub max_measure_text_cache_word_count: i32,
    pub debug_mode_enabled: bool,
    pub culling_disabled: bool,
    pub external_scroll_handling_enabled: bool,
    pub debug_selected_element_id: u32,
    pub generation: u32,
    pub seed_stack: Seq<u32>,
    pub element_map: Map<u32, LayoutElementHashMapItem>,
    pub pointer_state: PointerDataInteractionState,
    pub pointer_over_ids: Seq<Id>,
    pub pressed_element_ids: Seq<Id>,
    pub focused_element_id: u32,
    pub focus_from_keyboard: bool,
    pub focusable_elements: Seq<FocusableEntry>,
    pub focus_neighbors: Map<u32, FocusNeighbors>,
    pub accessibility_element_order: Seq<u32>,
    pub text_edit_states: Map<u32, TextEditState>,
    pub text_input_element_ids: Seq<u32>,
    pub text_input_configs: Seq<TextInputSettings>,
    pub tree: LayoutTreeView,
}

/// What a pointer update asks the caller to do: the focus change to report,
/// the elements whose press callbacks fire, the elements whose release
/// callbacks fire, and the text input that was clicked (whose caret the
/// caller places from the click position).
#[derive(Debug)]
pub struct PointerEvents {
    pub focus: FocusChange,
    pub press_targets: Vec<Id>,
    pub release_targets: Vec<Id>,
    pub text_input_click: Option<u32>,
}

impl View for PointerEvents {
    type V = PointerEventsView;

    open spec fn view(&self) -> PointerEventsView {
        PointerEventsView {
            focus: self.focus,
            press_targets: self.press_targets@,
            release_targets: self.release_targets@,
            text_input_click: self.text_input_click,
        }
    }
}

/// What Enter/Space on the focused element asks the caller to do.
#[derive(Debug)]
pub struct ActivationEvents {
    pub press_target: Option<Id>,
    pub release_targets: Vec<Id>,
}

/// A copy of a list of ids.
pub fn clone_ids(ids: &Vec<Id>) -> (r: Vec<Id>)
    ensures
        r@ == ids@,
{
    let mut out: Vec<Id> = Vec::new();
    let mut i: usize = 0;
    while i < ids.len()
        invariant
            0 <= i <= ids@.len(),
            out@ == ids@.take(i as int),
        decreases ids.len() - i,
    {
        out.push(ids[i].clone());
        proof {
            assert(ids@.take(i as int + 1) =~= ids@.take(i as int).push(ids@[i as int]));
        }
        i = i + 1;
    }
    proof {
        assert(ids@.take(ids@.len() as int) =~= ids@);
    }
    out
}

/// Whether some id in `ids` has the element id `id`.
pub fn ids_contain(ids: &Vec<Id>, id: u32) -> (r: bool)
    ensures
        r == spec_ids_contain(ids@, id),
{
    let mut i: usize = 0;
    while i < ids.len()
        invariant
            0 <= i <= ids@.len(),
            forall|j: int| 0 <= j < i ==> ids@[j].id != id,
        decreases ids.len() - i,
    {
        if ids[i].id == id {
            proof {
                assert(ids@[i as int].id == id);
            }
            return true;
        }
        i = i + 1;
    }
    false
}

/// The first position of `x` in `s`, if it occurs.
pub fn find_u32(s: &Vec<u32>, x: u32) -> (r: Option<usize>)
    ensures
        match r {
            Some(i) => i == first_pos_u32(s@, x) && i < s@.len(),
            None => first_pos_u32(s@, x) == -1,
        },
{
    let mut i: usize = 0;
    while i < s.len()
        invariant
            0 <= i <= s@.len(),
            forall|j: int| 0 <= j < i ==> s@[j] != x,
        decreases s.len() - i,
    {
        if s[i] == x {
            proof {
                let c = choose|c: int| 0 <= c < s@.len() && s@[c] == x && forall|j: int| 0 <= j < c ==> s@[j] != x;
                assert(s@[i as int] == x);
                if c < i {
                    assert(s@[c] != x);
                }
                if c > i {
                    assert(s@[i as int] != x);
                }
            }
            return Some(i);
        }
        i = i + 1;
    }
    None
}

/// The pointer button's next press state.
pub fn next_pointer_state(state: PointerDataInteractionState, is_down: bool) -> (r: PointerDataInteractionState)
    ensures
        r == spec_next_pointer_state(state, is_down),
{
    if is_down {
        match state {
            PointerDataInteractionState::PressedThisFrame => PointerDataInteractionState::Pressed,
            PointerDataInteractionState::Pressed => PointerDataInteractionState::Pressed,
            _ => PointerDataInteractionState::PressedThisFrame,
        }
    } else {
        match state {
            PointerDataInteractionState::ReleasedThisFrame => PointerDataInteractionState::Released,
            PointerDataInteractionState::Released => PointerDataInteractionState::Released,
            _ => PointerDataInteractionState::ReleasedThisFrame,
        }
    }
}


/// The position of the next anonymous child of element `parent`: its children
/// and floating children so far.
pub open spec fn anonymous_offset(parent: LayoutElement) -> u32 {
    (parent.children_length + parent.floating_children_count) as u32
}

/// The engine after opening an element with id `element_id` inside the open ones.
pub open spec fn spec_open_element(v: PlyContextView, element_id: Id) -> PlyContextView {
    PlyContextView {
        tree: spec_open(v.tree, element_id.id),
        element_map: spec_add_item(v.element_map, element_id, v.tree.elements.len() as i32, v.generation),
        ..v
    }
}

/// The element a floating element declared with `config` is attached to and
/// the element that clips it (0 for none), or `None` when it is not inside an
/// element. Attaching to the parent is the default: a configuration given no
/// attachment is attached as `Parent` is.
pub open spec fn spec_resolve_floating(v: PlyContextView, config: FloatingConfig) -> Option<(u32, u32)> {
    let t = v.tree;
    if t.open_stack.len() < 2 {
        None
    } else {
        let parent = t.elements[t.open_stack[t.open_stack.len() - 2] as int];
        let (parent_id, clip) = match config.attach_to {
            FloatingAttachToElement::Parent | FloatingAttachToElement::Unattached => (
                parent.id,
                if t.open_clip_stack.len() > 0 { t.open_clip_stack.last() as u32 } else { 0u32 },
            ),
            FloatingAttachToElement::ElementWithId => (
                config.parent_id,
                if v.element_map.contains_key(config.parent_id) {
                    t.clip_element_ids[v.element_map[config.parent_id].layout_element_index as int] as u32
                } else {
                    0u32
                },
            ),
            FloatingAttachToElement::Root => (spec_label_id("Ply__RootContainer".spec_bytes(), 0), 0u32),
        };
        Some((parent_id, if config.clip_to == FloatingClipToElement::Unclipped { 0u32 } else { clip }))
    }
}

/// An element attached by id to an element known from the map refers to an
/// element of this frame.
pub open spec fn floating_target_known(v: PlyContextView, config: FloatingConfig) -> bool {
    config.attach_to == FloatingAttachToElement::ElementWithId && v.tree.open_stack.len() >= 2
        && v.element_map.contains_key(config.parent_id) ==> {
        let i = v.element_map[config.parent_id].layout_element_index;
        0 <= i < v.tree.clip_element_ids.len()
    }
}

/// The engine with the debug view's collapse flag of element `id` flipped,
/// when the element map has an entry for it.
pub open spec fn spec_toggle_collapsed(v: PlyContextView, id: u32) -> PlyContextView {
    if v.element_map.contains_key(id) {
        PlyContextView {
            element_map: v.element_map.insert(
                id,
                LayoutElementHashMapItem { collapsed: !v.element_map[id].collapsed, ..v.element_map[id] },
            ),
            ..v
        }
    } else {
        v
    }
}

/// The element named by the last id of `over` hashed from the label with
/// hash `base`: the offset it was hashed with.
pub open spec fn collapse_target(over: Seq<Id>, base: u32) -> Option<u32>
    decreases over.len(),
{
    if over.len() == 0 {
        None
    } else if over.last().base_id == base {
        Some(over.last().offset)
    } else {
        collapse_target(over.drop_last(), base)
    }
}

/// What the last of `over` that is the debug view's close button (`close`)
/// or its panel header (`header`) is: `Some(true)` for the close button,
/// `Some(false)` for the header.
pub open spec fn debug_button_target(over: Seq<Id>, close: u32, header: u32) -> Option<bool>
    decreases over.len(),
{
    if over.len() == 0 {
        None
    } else if over.last().id == close {
        Some(true)
    } else if over.last().id == header {
        Some(false)
    } else {
        debug_button_target(over.drop_last(), close, header)
    }
}

/// The engine after a press on the debug view's buttons: on the frame the
/// pointer is pressed, its close button turns the debug view off and the
/// header of its panel deselects the selected element.
pub open spec fn spec_debug_view_click(v: PlyContextView) -> PlyContextView {
    if v.pointer_state == PointerDataInteractionState::PressedThisFrame {
        match debug_button_target(
            v.pointer_over_ids,
            spec_label_id("Ply__DebugView_CloseButton".spec_bytes(), 0),
            spec_label_id("Ply__DebugView_LayoutConfigHeader".spec_bytes(), 0),
        ) {
            Some(true) => PlyContextView { debug_mode_enabled: false, ..v },
            Some(false) => PlyContextView { debug_selected_element_id: 0, ..v },
            None => v,
        }
    } else {
        v
    }
}

/// The engine after a press on the debug view's list: on the frame the
/// pointer is pressed, the collapse button under it toggles its element.
pub open spec fn spec_debug_collapse_click(v: PlyContextView) -> PlyContextView {
    if v.pointer_state == PointerDataInteractionState::PressedThisFrame {
        match collapse_target(v.pointer_over_ids, spec_label_id("Ply__DebugView_CollapseElement".spec_bytes(), 0)) {
            Some(id) => spec_toggle_collapsed(v, id),
            None => v,
        }
    } else {
        v
    }
}

/// The current value of text input `element_id`: its text, or empty when it
/// has no editing state.
pub open spec fn spec_text_value(v: PlyContextView, element_id: u32) -> Seq<char> {
    if v.text_edit_states.contains_key(element_id) {
        v.text_edit_states[element_id].text@
    } else {
        Seq::<char>::empty()
    }
}


/// Whether the pointer is over element `x`, by the caller's hit test (one
/// flag per element; elements past the flags are not under the pointer).
pub open spec fn flag_at(inside: Seq<bool>, x: int) -> bool {
    0 <= x < inside.len() && inside[x]
}

/// The elements a pointer hit test visits from element `e`, depth first in
/// declaration order: an element known to the element map, then (unless it
/// is a text element) the elements visited from each of its children. The
/// children of an element come after it, so the walk ends.
pub open spec fn hit_visit(v: PlyContextView, e: int) -> Seq<int>
    decreases v.tree.elements.len() - e, (if 0 <= e < v.tree.elements.len() { v.tree.elements[e].children_length as int + 1 } else { 0 }),
{
    let t = v.tree;
    if e < 0 || e >= t.elements.len() || !v.element_map.contains_key(t.elements[e].id) {
        Seq::empty()
    } else if has_config(t, t.elements[e], ElementConfigType::Text) {
        seq![e]
    } else {
        seq![e] + hit_visit_children(v, e, 0)
    }
}

/// The elements visited from the children of element `e`, from its `k`-th
/// child on.
pub open spec fn hit_visit_children(v: PlyContextView, e: int, k: int) -> Seq<int>
    decreases v.tree.elements.len() - e, (if 0 <= e < v.tree.elements.len() { v.tree.elements[e].children_length - k } else { 0 }),
{
    let t = v.tree;
    if e < 0 || e >= t.elements.len() || k < 0 || k >= t.elements[e].children_length {
        Seq::empty()
    } else {
        let j = t.elements[e].children_start + k;
        let c = if 0 <= j < t.children.len() { t.children[j] as int } else { -1 };
        let rest = hit_visit_children(v, e, k + 1);
        if e < c < t.elements.len() { hit_visit(v, c) + rest } else { rest }
    }
}

/// The visited elements the pointer is over, in order.
pub open spec fn inside_only(s: Seq<int>, inside: Seq<bool>) -> Seq<int>
    decreases s.len(),
{
    if s.len() == 0 {
        Seq::empty()
    } else if flag_at(inside, s.last()) {
        inside_only(s.drop_last(), inside).push(s.last())
    } else {
        inside_only(s.drop_last(), inside)
    }
}

/// The elements a pointer hit test visits, root by root from the last tree
/// root (the topmost) down, from root `j - 1`: it stops after a root under
/// which the pointer is over something, when that root captures the pointer
/// (`captures`, one flag per tree root).
pub open spec fn hit_roots(v: PlyContextView, inside: Seq<bool>, captures: Seq<bool>, j: int) -> Seq<int>
    decreases j,
{
    if j <= 0 || j > v.tree.tree_roots.len() {
        Seq::empty()
    } else {
        let visited = hit_visit(v, v.tree.tree_roots[j - 1].layout_element_index as int);
        if inside_only(visited, inside).len() > 0 && flag_at(captures, j - 1) {
            visited
        } else {
            visited + hit_roots(v, inside, captures, j - 1)
        }
    }
}


/// The entries of `s` the pointer is over (by `inside`), in order.
pub fn select_inside(s: &Vec<usize>, inside: &Vec<bool>) -> (r: Vec<usize>)
    ensures
        r@.map_values(|x: usize| x as int) == inside_only(s@.map_values(|x: usize| x as int), inside@),
{
    let mut r: Vec<usize> = Vec::new();
    let mut i: usize = 0;
    while i < s.len()
        invariant
            0 <= i <= s@.len(),
            r@.map_values(|x: usize| x as int) == inside_only(s@.map_values(|x: usize| x as int).take(i as int), inside@),
        decreases s@.len() - i,
    {
        let x = s[i];
        let ghost si = s@.map_values(|x: usize| x as int);
        assert(si.take(i + 1).drop_last() =~= si.take(i as int));
        assert(si.take(i + 1).last() == x as int);
        if x < inside.len() && inside[x] {
            let ghost r0 = r@.map_values(|x: usize| x as int);
            r.push(x);
            assert(r@.map_values(|x: usize| x as int) =~= r0.push(x as int));
        }
        i = i + 1;
    }
    assert(s@.map_values(|x: usize| x as int).take(s@.len() as int) =~= s@.map_values(|x: usize| x as int));
    r
}


/// The element map after updating the hover flags of the elements `visited`
/// (in order) for a frame in which the pointer is over those flagged by
/// `inside`.
pub open spec fn hovers_after(
    map: Map<u32, LayoutElementHashMapItem>,
    elements: Seq<LayoutElement>,
    visited: Seq<int>,
    inside: Seq<bool>,
) -> Map<u32, LayoutElementHashMapItem>
    decreases visited.len(),
{
    if visited.len() == 0 {
        map
    } else {
        let m = hovers_after(map, elements, visited.drop_last(), inside);
        let x = visited.last();
        let id = elements[x].id;
        if 0 <= x < elements.len() && m.contains_key(id) {
            m.insert(id, LayoutElementHashMapItem { hover: spec_next_hover(m[id].hover, flag_at(inside, x)), ..m[id] })
        } else {
            m
        }
    }
}

/// The ids (as the element map records them) of the elements `over`, in
/// order, leaving out elements the map does not know.
pub open spec fn over_ids(map: Map<u32, LayoutElementHashMapItem>, elements: Seq<LayoutElement>, over: Seq<int>) -> Seq<Id>
    decreases over.len(),
{
    if over.len() == 0 {
        Seq::empty()
    } else {
        let rest = over_ids(map, elements, over.drop_last());
        let x = over.last();
        if 0 <= x < elements.len() && map.contains_key(elements[x].id) {
            rest.push(map[elements[x].id].element_id)
        } else {
            rest
        }
    }
}

/// The engine state and reported events after a pointer update from a hit
/// test: the visited elements' hover flags are updated, and the elements the
/// pointer is over go to the press/release state machine, outermost first.
pub open spec fn spec_set_pointer_state(
    v: PlyContextView,
    inside: Seq<bool>,
    captures: Seq<bool>,
    is_down: bool,
) -> (PlyContextView, PointerEventsView) {
    let visited = hit_roots(v, inside, captures, v.tree.tree_roots.len() as int);
    let map = hovers_after(v.element_map, v.tree.elements, visited, inside);
    let v1 = PlyContextView { element_map: map, ..v };
    spec_pointer_update(v1, over_ids(map, v.tree.elements, inside_only(visited, inside)), is_down)
}

/// The integer core of the layout engine: element identity across frames,
/// keyboard focus, pointer press state and text-input values.
pub struct PlyContext {
    max_element_count: i32,
    max_measure_text_cache_word_count: i32,
    debug_mode_enabled: bool,
    culling_disabled: bool,
    external_scroll_handling_enabled: bool,
    debug_selected_element_id: u32,
    generation: u32,
    seed_stack: Vec<u32>,
    layout_element_map: FxHashMap<u32, LayoutElementHashMapItem>,
    pointer_state: PointerDataInteractionState,
    pointer_over_ids: Vec<Id>,
    pressed_element_ids: Vec<Id>,
    focused_element_id: u32,
    focus_from_keyboard: bool,
    focusable_elements: Vec<FocusableEntry>,
    focus_neighbors: FxHashMap<u32, FocusNeighbors>,
    accessibility_element_order: Vec<u32>,
    text_edit_states: FxHashMap<u32, TextEditState>,
    text_input_element_ids: Vec<u32>,
    text_input_configs: Vec<TextInputSettings>,
    tree: LayoutTree,
}

impl View for PlyContext {
    type V = PlyContextView;

    closed spec fn view(&self) -> PlyContextView {
        PlyContextView {
            max_element_count: self.max_element_count,
            max_measure_text_cache_word_count: self.max_measure_text_cache_word_count,
            debug_mode_enabled: self.debug_mode_enabled,
            culling_disabled: self.culling_disabled,
            external_scroll_handling_enabled: self.external_scroll_handling_enabled,
            debug_selected_element_id: self.debug_selected_element_id,
            generation: self.generation,
            seed_stack: self.seed_stack@,
            element_map: self.layout_element_map@,
            pointer_state: self.pointer_state,
            pointer_over_ids: self.pointer_over_ids@,
            pressed_element_ids: self.pressed_element_ids@,
            focused_element_id: self.focused_element_id,
            focus_from_keyboard: self.focus_from_keyboard,
            focusable_elements: self.focusable_elements@,
            focus_neighbors: self.focus_neighbors@,
            accessibility_element_order: self.accessibility_element_order@,
            text_edit_states: self.text_edit_states@,
            text_input_element_ids: self.text_input_element_ids@,
            text_input_configs: self.text_input_configs@,
            tree: self.tree@,
        }
    }
}

impl PlyContext {
    /// Well-formedness: focusable entries are numbered in declaration order, and
    /// each text input of this frame has its settings.
    pub open spec fn wf(&self) -> bool {
        &&& forall|i: int|
            0 <= i < self@.focusable_elements.len() ==> (#[trigger] self@.focusable_elements[i]).insertion_order == i
        &&& self@.focusable_elements.len() <= u32::MAX
        &&& self@.text_input_element_ids.len() == self@.text_input_configs.len()
        &&& tree_view_wf(self@.tree)
    }

    /// A fresh engine core: frame 0, nothing declared, nothing focused or pressed.
    pub fn new() -> (r: PlyContext)
        ensures
            r.wf(),
            r@.generation == 0,
            r@.seed_stack.len() == 0,
            r@.element_map.is_empty(),
            r@.pointer_state == PointerDataInteractionState::Released,
            r@.pointer_over_ids.len() == 0,
            r@.pressed_element_ids.len() == 0,
            r@.focused_element_id == 0,
            !r@.focus_from_keyboard,
            r@.focusable_elements.len() == 0,
            r@.focus_neighbors.is_empty(),
            r@.accessibility_element_order.len() == 0,
            r@.text_edit_states.is_empty(),
            r@.text_input_element_ids.len() == 0,
            r@.text_input_configs.len() == 0,
            r@.max_element_count == DEFAULT_MAX_ELEMENT_COUNT,
            r@.max_measure_text_cache_word_count == DEFAULT_MAX_MEASURE_TEXT_WORD_CACHE_COUNT,
            !r@.debug_mode_enabled,
            !r@.culling_disabled,
            !r@.external_scroll_handling_enabled,
            r@.debug_selected_element_id == 0,
            is_empty_tree(r@.tree),
    {
        PlyContext {
            max_element_count: DEFAULT_MAX_ELEMENT_COUNT,
            max_measure_text_cache_word_count: DEFAULT_MAX_MEASURE_TEXT_WORD_CACHE_COUNT,
            debug_mode_enabled: false,
            culling_disabled: false,
            external_scroll_handling_enabled: false,
            debug_selected_element_id: 0,
            generation: 0,
            seed_stack: Vec::new(),
            layout_element_map: map_new(),
            pointer_state: PointerDataInteractionState::Released,
            pointer_over_ids: Vec::new(),
            pressed_element_ids: Vec::new(),
            focused_element_id: 0,
            focus_from_keyboard: false,
            focusable_elements: Vec::new(),
            focus_neighbors: map_new(),
            accessibility_element_order: Vec::new(),
            text_edit_states: map_new(),
            text_input_element_ids: Vec::new(),
            text_input_configs: Vec::new(),
            tree: LayoutTree::new(),
        }
    }

    /// The id of the next anonymous element in the current id scope: the hash of
    /// the scope's depth with the seed on top of the stack, which then becomes
    /// that seed.
    pub fn generate_id(&mut self) -> (r: Id)
        requires
            old(self)@.seed_stack.len() > 0,
        ensures
            r.id == spec_number_id(old(self)@.seed_stack.len() as u32, old(self)@.seed_stack.last()),
            r.offset == old(self)@.seed_stack.len() as u32,
            r.base_id == old(self)@.seed_stack.last(),
            final(self)@ == (PlyContextView {
                seed_stack: old(self)@.seed_stack.update(old(self)@.seed_stack.len() - 1, r.id),
                ..old(self)@
            }),
    {
        let len = self.seed_stack.len();
        let id = hash_number(len as u32, self.seed_stack[len - 1]);
        self.seed_stack.set(len - 1, id.id);
        id
    }

    /// Empties the id scope stack and opens the top-level scope with seed 0.
    pub fn reset_seed_stack(&mut self)
        ensures
            final(self)@ == (PlyContextView { seed_stack: seq![0u32], ..old(self)@ }),
    {
        self.seed_stack.clear();
        self.seed_stack.push(0);
        proof {
            assert(self.seed_stack@ =~= seq![0u32]);
        }
    }


    /// Opens an element declared without an id inside the innermost open
    /// element. Its id is that of its position under that element (counting
    /// the children and floating children so far); it is recorded in the
    /// element map and returned.
    pub fn open_element(&mut self) -> (r: Id)
        requires
            old(self).wf(),
            old(self)@.tree.open_stack.len() > 0,
            old(self)@.tree.elements.len() < i32::MAX,
            old(self)@.generation < u32::MAX,
        ensures
            final(self).wf(),
            ({
                let t = old(self)@.tree;
                let parent = t.elements[open_index(t)];
                &&& r.id == spec_number_id(anonymous_offset(parent), parent.id)
                &&& r.offset == anonymous_offset(parent)
                &&& r.base_id == parent.id
                &&& r.string_id.text@ == Seq::<char>::empty()
            }),
            final(self)@ == spec_open_element(old(self)@, r),
    {
        proof {
            self.tree.lemma_indices_valid();
        }
        let parent = self.tree.element(self.tree.open_element_index());
        let offset: u32 = parent.children_length as u32 + parent.floating_children_count as u32;
        let element_id = hash_number(offset, parent.id);
        let idx = self.tree.open_element_with_id(element_id.id);
        self.add_hash_map_item(&element_id, idx as i32);
        element_id
    }

    /// Opens an element with the given id inside the open ones and records it
    /// in the element map.
    pub fn open_element_with_id(&mut self, element_id: &Id)
        requires
            old(self).wf(),
            old(self)@.tree.elements.len() < i32::MAX,
            old(self)@.generation < u32::MAX,
        ensures
            final(self).wf(),
            final(self)@ == spec_open_element(old(self)@, *element_id),
    {
        let idx = self.tree.open_element_with_id(element_id.id);
        self.add_hash_map_item(element_id, idx as i32);
    }

    /// Declares a text element as the next child of the innermost open
    /// element; its id is that of its position among the element's children.
    /// It is recorded in the element map and, when `accessible`, in the
    /// accessibility order. Returns its id.
    pub fn open_text_element(
        &mut self,
        text_data_index: i32,
        text_config_index: usize,
        layout_config_index: usize,
        accessible: bool,
    ) -> (r: Id)
        requires
            old(self).wf(),
            old(self)@.tree.open_stack.len() >= 2,
            old(self)@.tree.elements.len() < i32::MAX,
            old(self)@.tree.elements[open_index(old(self)@.tree)].children_length < u16::MAX,
            old(self)@.generation < u32::MAX,
        ensures
            final(self).wf(),
            ({
                let t = old(self)@.tree;
                let parent = t.elements[open_index(t)];
                &&& r.id == spec_number_id(parent.children_length as u32, parent.id)
                &&& r.offset == parent.children_length as u32
                &&& r.base_id == parent.id
                &&& r.string_id.text@ == Seq::<char>::empty()
                &&& final(self)@ == (PlyContextView {
                    tree: spec_open_text(t, r.id, text_data_index, text_config_index, layout_config_index),
                    element_map: spec_add_item(old(self)@.element_map, r, t.elements.len() as i32, old(self)@.generation),
                    accessibility_element_order: if accessible {
                        old(self)@.accessibility_element_order.push(r.id)
                    } else {
                        old(self)@.accessibility_element_order
                    },
                    ..old(self)@
                })
            }),
    {
        proof {
            self.tree.lemma_indices_valid();
        }
        let parent = self.tree.element(self.tree.open_element_index());
        let element_id = hash_number(parent.children_length as u32, parent.id);
        let idx = self.tree.open_text_element(element_id.id, text_data_index, text_config_index, layout_config_index);
        self.add_hash_map_item(&element_id, idx as i32);
        if accessible {
            self.accessibility_element_order.push(element_id.id);
        }
        element_id
    }

    /// Starts configuring the innermost open element: records its layout
    /// configuration; the configurations attached next are its own.
    pub fn begin_element_configs(&mut self, layout_config_index: usize)
        requires
            old(self).wf(),
            old(self)@.tree.open_stack.len() > 0,
            old(self)@.tree.elements[open_index(old(self)@.tree)].element_configs.length == 0,
        ensures
            final(self).wf(),
            final(self)@ == (PlyContextView { tree: spec_begin_configs(old(self)@.tree, layout_config_index), ..old(self)@ }),
    {
        self.tree.begin_configs(layout_config_index);
    }

    /// Attaches a configuration of kind `config_type`, stored at
    /// `config_index` in the store of its kind, to the innermost open element.
    /// Clipping is attached with `attach_clip`, floating with `attach_floating`.
    pub fn attach_element_config(&mut self, config_type: ElementConfigType, config_index: usize)
        requires
            old(self).wf(),
            old(self)@.tree.open_stack.len() > 0,
            old(self)@.tree.elements[open_index(old(self)@.tree)].element_configs.length < i32::MAX,
            config_type != ElementConfigType::Clip,
        ensures
            final(self).wf(),
            final(self)@ == (PlyContextView { tree: spec_attach(old(self)@.tree, config_type, config_index), ..old(self)@ }),
    {
        self.tree.attach_element_config(config_type, config_index);
    }

    /// Makes the innermost open element clip its content as `clip` says.
    pub fn attach_clip(&mut self, clip: ClipConfig)
        requires
            old(self).wf(),
            old(self)@.tree.open_stack.len() > 0,
            old(self)@.tree.elements[open_index(old(self)@.tree)].element_configs.length < i32::MAX,
        ensures
            final(self).wf(),
            final(self)@ == (PlyContextView { tree: spec_attach_clip(old(self)@.tree, clip), ..old(self)@ }),
    {
        self.tree.attach_clip(clip);
    }

    /// For the innermost open element declared with floating configuration
    /// `config`: the element it is attached to and the element that clips it
    /// (0 for none), or `None` when it is not inside an element. A
    /// configuration given no attachment is attached to the parent.
    pub fn resolve_floating(&self, config: &FloatingConfig) -> (r: Option<(u32, u32)>)
        requires
            self.wf(),
            floating_target_known(self@, *config),
        ensures
            r == spec_resolve_floating(self@, *config),
    {
        proof {
            self.tree.lemma_indices_valid();
        }
        if self.tree.open_depth() < 2 {
            return None;
        }
        let parent = self.tree.element(self.tree.parent_element_index());
        let mut parent_id: u32 = config.parent_id;
        let mut clip: u32 = 0;
        match config.attach_to {
            FloatingAttachToElement::Parent | FloatingAttachToElement::Unattached => {
                parent_id = parent.id;
                clip = self.tree.current_clip_id();
            },
            FloatingAttachToElement::ElementWithId => {
                match map_get(&self.layout_element_map, config.parent_id) {
                    Some(item) => {
                        let i = item.layout_element_index as usize;
                        clip = #[verifier::truncate] (self.tree.clip_element_id(i) as u32);
                    },
                    None => {},
                }
            },
            FloatingAttachToElement::Root => {
                parent_id = hash_string("Ply__RootContainer", 0).id;
            },
        }
        if config.clip_to == FloatingClipToElement::Unclipped {
            clip = 0;
        }
        Some((parent_id, clip))
    }

    /// Makes the innermost open element float, attached to `parent_id` and
    /// clipped by `clip_element_id` (as `resolve_floating` found them), with
    /// stacking order `z_index`; its floating configuration is stored at
    /// `config_index`.
    pub fn attach_floating(&mut self, parent_id: u32, clip_element_id: u32, z_index: i16, config_index: usize)
        requires
            old(self).wf(),
            old(self)@.tree.open_stack.len() > 0,
            old(self)@.tree.elements[open_index(old(self)@.tree)].element_configs.length < i32::MAX,
        ensures
            final(self).wf(),
            final(self)@ == (PlyContextView {
                tree: spec_attach_floating(old(self)@.tree, parent_id, clip_element_id, z_index, config_index),
                ..old(self)@
            }),
    {
        self.tree.attach_floating(parent_id, clip_element_id, z_index, config_index);
    }

    /// Closes the innermost open element and reports its children and
    /// clipping, so that the caller can size it.
    pub fn close_element(&mut self) -> (closed: ClosedElement)
        requires
            old(self).wf(),
            can_close(old(self)@.tree),
            close_fits(old(self)@.tree),
        ensures
            final(self).wf(),
            final(self)@ == (PlyContextView { tree: spec_close(old(self)@.tree), ..old(self)@ }),
            closed == spec_closed_info(old(self)@.tree),
    {
        self.tree.close_element()
    }


    /// Appends to `out` the elements a hit test visits from element `e`.
    fn hit_visit_from(&self, e: usize, out: &mut Vec<usize>)
        requires
            self.wf(),
        ensures
            final(out)@.map_values(|x: usize| x as int) == old(out)@.map_values(|x: usize| x as int) + hit_visit(self@, e as int),
        decreases self@.tree.elements.len() - e, (if e < self@.tree.elements.len() { self@.tree.elements[e as int].children_length as int + 1 } else { 0 }),
    {
        let tree = &self.tree;
        proof {
            tree.lemma_indices_valid();
        }
        if e >= tree.element_count() {
            return;
        }
        let element = tree.element(e);
        if !map_contains(&self.layout_element_map, element.id) {
            return;
        }
        let ghost before = out@.map_values(|x: usize| x as int);
        out.push(e);
        assert(out@.map_values(|x: usize| x as int) =~= before.push(e as int));
        if tree.element_has_config(e, ElementConfigType::Text) {
            assert(before + hit_visit(self@, e as int) =~= before.push(e as int));
            return;
        }
        self.hit_visit_children_from(e, out);
        assert(before + hit_visit(self@, e as int) =~= before.push(e as int) + hit_visit_children(self@, e as int, 0));
    }

    /// Appends to `out` the elements a hit test visits from the children of element `e`.
    fn hit_visit_children_from(&self, e: usize, out: &mut Vec<usize>)
        requires
            self.wf(),
            e < self@.tree.elements.len(),
        ensures
            final(out)@.map_values(|x: usize| x as int) == old(out)@.map_values(|x: usize| x as int) + hit_visit_children(self@, e as int, 0),
        decreases self@.tree.elements.len() - e, self@.tree.elements[e as int].children_length as int,
    {
        let tree = &self.tree;
        let element = tree.element(e);
        let n = element.children_length;
        let count = tree.element_count();
        let children = tree.children();
        let children_count = children.len();
        let ghost start = old(out)@.map_values(|x: usize| x as int);
        let mut k: u16 = 0;
        while k < n
            invariant
                self.wf(),
                0 <= k <= n,
                e < self@.tree.elements.len(),
                element == self@.tree.elements[e as int],
                n == element.children_length,
                count == self@.tree.elements.len(),
                children@ == self@.tree.children,
                children_count == children@.len(),
                start + hit_visit_children(self@, e as int, 0)
                    == out@.map_values(|x: usize| x as int) + hit_visit_children(self@, e as int, k as int),
            decreases n - k,
        {
            let ghost cur = out@.map_values(|x: usize| x as int);
            let mut handled = false;
            if let Some(j) = element.children_start.checked_add(k as usize) {
                if j < children_count {
                    let c = children[j];
                    if c >= 0 && e < c as usize && (c as usize) < count {
                        self.hit_visit_from(c as usize, out);
                        assert(cur + hit_visit_children(self@, e as int, k as int)
                            =~= cur + hit_visit(self@, c as int) + hit_visit_children(self@, e as int, k + 1));
                        handled = true;
                    }
                }
            }
            if !handled {
                assert(hit_visit_children(self@, e as int, k as int) == hit_visit_children(self@, e as int, k + 1));
            }
            k = k + 1;
        }
        assert(hit_visit_children(self@, e as int, n as int) =~= Seq::<int>::empty());
        assert(start + hit_visit_children(self@, e as int, 0) =~= out@.map_values(|x: usize| x as int));
    }


    /// The elements a pointer hit test visits, root by root from the topmost
    /// layout root down, each root's elements depth first; it stops after a
    /// root under which the pointer is over something (by `inside`, one flag
    /// per element) when that root captures the pointer (`captures`, one flag
    /// per tree root).
    pub fn hit_test(&self, inside: &Vec<bool>, captures: &Vec<bool>) -> (r: Vec<usize>)
        requires
            self.wf(),
        ensures
            r@.map_values(|x: usize| x as int)
                == hit_roots(self@, inside@, captures@, self@.tree.tree_roots.len() as int),
    {
        let roots = self.tree.tree_roots();
        let n = roots.len();
        let mut out: Vec<usize> = Vec::new();
        let mut j: usize = n;
        while j > 0
            invariant_except_break
                self.wf(),
                roots@ == self@.tree.tree_roots,
                n == roots@.len(),
                j <= n,
                out@.map_values(|x: usize| x as int) + hit_roots(self@, inside@, captures@, j as int)
                    == hit_roots(self@, inside@, captures@, n as int),
            ensures
                out@.map_values(|x: usize| x as int) == hit_roots(self@, inside@, captures@, n as int),
            decreases j,
        {
            let root = roots[j - 1].layout_element_index;
            let mut visited: Vec<usize> = Vec::new();
            if root >= 0 {
                self.hit_visit_from(root as usize, &mut visited);
            } else {
                assert(hit_visit(self@, root as int) =~= Seq::<int>::empty());
            }
            assert(visited@.map_values(|x: usize| x as int) =~= hit_visit(self@, root as int));
            let over = select_inside(&visited, inside);
            let capture = j - 1 < captures.len() && captures[j - 1];
            let ghost before = out@.map_values(|x: usize| x as int);
            let mut k: usize = 0;
            while k < visited.len()
                invariant
                    0 <= k <= visited@.len(),
                    out@.map_values(|x: usize| x as int) == before + visited@.map_values(|x: usize| x as int).take(k as int),
                decreases visited@.len() - k,
            {
                let ghost o = out@.map_values(|x: usize| x as int);
                out.push(visited[k]);
                assert(out@.map_values(|x: usize| x as int) =~= o.push(visited@[k as int] as int));
                assert(visited@.map_values(|x: usize| x as int).take(k + 1)
                    =~= visited@.map_values(|x: usize| x as int).take(k as int).push(visited@[k as int] as int));
                k = k + 1;
            }
            assert(visited@.map_values(|x: usize| x as int).take(visited@.len() as int) =~= visited@.map_values(|x: usize| x as int));
            if over.len() > 0 && capture {
                assert(out@.map_values(|x: usize| x as int) =~= hit_roots(self@, inside@, captures@, n as int)) by {
                    assert(hit_roots(self@, inside@, captures@, j as int) == hit_visit(self@, root as int));
                }
                break;
            }
            assert(hit_roots(self@, inside@, captures@, j as int)
                == hit_visit(self@, root as int) + hit_roots(self@, inside@, captures@, j - 1));
            assert(before + hit_roots(self@, inside@, captures@, j as int)
                =~= out@.map_values(|x: usize| x as int) + hit_roots(self@, inside@, captures@, j - 1));
            j = j - 1;
        }
        proof {
            if j == 0 {
                assert(out@.map_values(|x: usize| x as int) + Seq::<int>::empty() =~= out@.map_values(|x: usize| x as int));
            }
        }
        out
    }


    /// A pointer update from the caller's hit test (`inside`, one flag per
    /// element; `captures`, one flag per tree root): walks the layout from
    /// the topmost root, updates the hover flags of the elements visited,
    /// and hands the elements the pointer is over to the press/release state
    /// machine with the button held (`is_down`) or not.
    pub fn set_pointer_state(&mut self, inside: &Vec<bool>, captures: &Vec<bool>, is_down: bool) -> (ev: PointerEvents)
        requires
            old(self).wf(),
        ensures
            final(self).wf(),
            (final(self)@, ev@) == spec_set_pointer_state(old(self)@, inside@, captures@, is_down),
    {
        let visited = self.hit_test(inside, captures);
        let ghost o = self@;
        let ghost vis = visited@.map_values(|x: usize| x as int);
        let mut k: usize = 0;
        while k < visited.len()
            invariant
                0 <= k <= visited@.len(),
                vis == visited@.map_values(|x: usize| x as int),
                o.tree == self@.tree,
                self.wf(),
                self@ == (PlyContextView { element_map: hovers_after(o.element_map, o.tree.elements, vis.take(k as int), inside@), ..o }),
            decreases visited@.len() - k,
        {
            let x = visited[k];
            assert(vis.take(k + 1).drop_last() =~= vis.take(k as int));
            assert(vis.take(k + 1).last() == x as int);
            if x < self.tree.element_count() {
                let id = self.tree.element(x).id;
                let flag = x < inside.len() && inside[x];
                self.update_hover(id, flag);
            }
            k = k + 1;
        }
        assert(vis.take(visited@.len() as int) =~= vis);
        let over = select_inside(&visited, inside);
        let ghost m = self@.element_map;
        let ghost ov = over@.map_values(|x: usize| x as int);
        let mut ids: Vec<Id> = Vec::new();
        let mut i: usize = 0;
        while i < over.len()
            invariant
                0 <= i <= over@.len(),
                ov == over@.map_values(|x: usize| x as int),
                m == self@.element_map,
                o.tree == self@.tree,
                ids@ == over_ids(m, o.tree.elements, ov.take(i as int)),
            decreases over@.len() - i,
        {
            let x = over[i];
            assert(ov.take(i + 1).drop_last() =~= ov.take(i as int));
            assert(ov.take(i + 1).last() == x as int);
            if x < self.tree.element_count() {
                let id = self.tree.element(x).id;
                match map_get(&self.layout_element_map, id) {
                    Some(item) => {
                        ids.push(item.element_id.clone());
                    },
                    None => {},
                }
            }
            i = i + 1;
        }
        assert(ov.take(over@.len() as int) =~= ov);
        self.update_pointer_state(ids, is_down)
    }

    /// Sorts the tree roots by ascending z-index, keeping the declaration
    /// order of roots with equal z-index.
    pub fn sort_tree_roots_by_z_index(&mut self)
        requires
            old(self).wf(),
        ensures
            final(self).wf(),
            final(self)@ == (PlyContextView {
                tree: LayoutTreeView { tree_roots: final(self)@.tree.tree_roots, ..old(self)@.tree },
                ..old(self)@
            }),
            is_stable_z_order(old(self)@.tree.tree_roots, final(self)@.tree.tree_roots),
    {
        self.tree.sort_tree_roots_by_z_index();
    }

    /// The id of the innermost open element.
    pub fn get_open_element_id(&self) -> (r: u32)
        requires
            self.wf(),
            self@.tree.open_stack.len() > 0,
        ensures
            r == self@.tree.elements[open_index(self@.tree)].id,
    {
        let i = self.tree.open_element_index();
        self.tree.element(i).id
    }

    /// The id of the element the innermost open element is declared in.
    pub fn get_parent_element_id(&self) -> (r: u32)
        requires
            self.wf(),
            self@.tree.open_stack.len() >= 2,
        ensures
            r == self@.tree.elements[self@.tree.open_stack[self@.tree.open_stack.len() - 2] as int].id,
    {
        let i = self.tree.parent_element_index();
        self.tree.element(i).id
    }

    /// The element tree of this frame.
    pub fn layout_tree(&self) -> (r: &LayoutTree)
        ensures
            r@ == self@.tree,
            self.wf() ==> r.wf(),
    {
        &self.tree
    }

    /// Starts a frame: forgets the previous frame's focusable elements, focus
    /// targets and text inputs, advances the frame number, and declares the
    /// root container (at layout index 0), whose id it returns.
    pub fn begin_layout(&mut self) -> (r: Id)
        requires
            old(self)@.generation < u32::MAX - 1,
        ensures
            r.id == spec_label_id("Ply__RootContainer".spec_bytes(), 0),
            r.string_id.text@ == "Ply__RootContainer"@,
            final(self)@ == (PlyContextView {
                generation: (old(self)@.generation + 1) as u32,
                element_map: spec_add_item(old(self)@.element_map, r, 0, (old(self)@.generation + 1) as u32),
                focusable_elements: Seq::empty(),
                focus_neighbors: Map::empty(),
                accessibility_element_order: Seq::empty(),
                text_input_element_ids: Seq::empty(),
                text_input_configs: Seq::empty(),
                tree: spec_root_tree(r.id),
                ..old(self)@
            }),
            final(self).wf(),
    {
        self.focusable_elements.clear();
        map_clear(&mut self.focus_neighbors);
        self.accessibility_element_order.clear();
        self.text_input_configs.clear();
        self.text_input_element_ids.clear();
        self.generation = self.generation + 1;
        let root_id = hash_string("Ply__RootContainer", 0);
        self.tree.begin_root(root_id.id);
        self.add_hash_map_item(&root_id, 0);
        proof {
            assert(self.focus_neighbors@ =~= Map::empty());
            assert(self.focusable_elements@ =~= Seq::empty());
            assert(self.accessibility_element_order@ =~= Seq::empty());
            assert(self.text_input_element_ids@ =~= Seq::empty());
            assert(self.text_input_configs@ =~= Seq::empty());
        }
        root_id
    }

    /// Moves keyboard focus to `new_id` (0 clears it) and reports the change,
    /// so that the caller can fire the old element's unfocus callback and the
    /// new one's focus callback.
    pub fn change_focus(&mut self, new_id: u32) -> (change: FocusChange)
        ensures
            final(self)@ == spec_change_focus(old(self)@, new_id),
            change == (FocusChange { previous: old(self)@.focused_element_id, current: new_id }),
    {
        let old_id = self.focused_element_id;
        if old_id != new_id {
            self.focused_element_id = new_id;
            if new_id == 0 {
                self.focus_from_keyboard = false;
            }
        }
        FocusChange { previous: old_id, current: new_id }
    }

    /// Sets focus to the element with the given id.
    pub fn set_focus(&mut self, element_id: u32) -> (change: FocusChange)
        ensures
            final(self)@ == spec_change_focus(old(self)@, element_id),
            change == (FocusChange { previous: old(self)@.focused_element_id, current: element_id }),
    {
        self.change_focus(element_id)
    }

    /// Clears focus (no element is focused).
    pub fn clear_focus(&mut self) -> (change: FocusChange)
        ensures
            final(self)@ == spec_change_focus(old(self)@, 0),
            change == (FocusChange { previous: old(self)@.focused_element_id, current: 0 }),
    {
        self.change_focus(0)
    }

    /// Whether the element `element_id` has focus.
    pub fn focused(&self, element_id: u32) -> (r: bool)
        ensures
            r == (self@.focused_element_id == element_id && element_id != 0),
    {
        self.focused_element_id == element_id && element_id != 0
    }

    /// The raw id of the focused element (0 when none).
    pub fn focused_element_id(&self) -> (r: u32)
        ensures
            r == self@.focused_element_id,
    {
        self.focused_element_id
    }

    /// Whether focus was last moved by the keyboard.
    pub fn focus_from_keyboard(&self) -> (r: bool)
        ensures
            r == self@.focus_from_keyboard,
    {
        self.focus_from_keyboard
    }

    /// The full id of the focused element, when one is focused and known to the element map.
    pub fn focused_element(&self) -> (r: Option<Id>)
        ensures
            r == (if self@.focused_element_id != 0 && self@.element_map.contains_key(self@.focused_element_id) {
                Some(self@.element_map[self@.focused_element_id].element_id)
            } else {
                None
            }),
    {
        if self.focused_element_id != 0 {
            match map_get(&self.layout_element_map, self.focused_element_id) {
                Some(item) => Some(item.element_id.clone()),
                None => None,
            }
        } else {
            None
        }
    }

    /// Tab (or Shift+Tab when `reverse`): moves focus to the next (previous)
    /// focusable element in tab order, wrapping around; from no focus, to the
    /// first (last) one. Does nothing when nothing is focusable.
    pub fn cycle_focus(&mut self, reverse: bool) -> (change: FocusChange)
        requires
            old(self).wf(),
        ensures
            old(self)@.focusable_elements.len() == 0 ==> final(self)@ == old(self)@ && change.previous == change.current,
            old(self)@.focusable_elements.len() > 0 ==> {
                let target = spec_cycle_target(old(self)@.focusable_elements, old(self)@.focused_element_id, reverse);
                &&& final(self)@ == spec_change_focus(PlyContextView { focus_from_keyboard: true, ..old(self)@ }, target)
                &&& change == (FocusChange { previous: old(self)@.focused_element_id, current: target })
            },
    {
        if self.focusable_elements.len() == 0 {
            return FocusChange { previous: self.focused_element_id, current: self.focused_element_id };
        }
        self.focus_from_keyboard = true;
        let sorted = sort_tab_order(&self.focusable_elements);
        proof {
            lemma_tab_order_sorted(old(self)@.focusable_elements);
        }
        let current = find_first_index(&sorted, self.focused_element_id);
        let next = next_cycle_index(sorted.len(), current, reverse);
        let target = sorted[next].element_id;
        self.change_focus(target)
    }

    /// Arrow key: moves focus to the focused element's explicit target in that
    /// direction, if it has one. Marks focus as keyboard-driven whenever something is focused.
    pub fn arrow_focus(&mut self, direction: ArrowDirection) -> (change: FocusChange)
        ensures
            (final(self)@, change) == spec_arrow_focus(old(self)@, direction),
            old(self)@.focused_element_id == 0 ==> final(self)@ == old(self)@ && change.previous == change.current,
            old(self)@.focused_element_id != 0 ==> {
                let marked = PlyContextView { focus_from_keyboard: true, ..old(self)@ };
                let f = old(self)@.focused_element_id;
                if old(self)@.focus_neighbors.contains_key(f)
                    && spec_arrow_target(old(self)@.focus_neighbors[f], direction) is Some {
                    let t = spec_arrow_target(old(self)@.focus_neighbors[f], direction)->0;
                    &&& final(self)@ == spec_change_focus(marked, t)
                    &&& change == (FocusChange { previous: f, current: t })
                } else {
                    &&& final(self)@ == marked
                    &&& change == (FocusChange { previous: f, current: f })
                }
            },
    {
        let f = self.focused_element_id;
        if f == 0 {
            return FocusChange { previous: 0, current: 0 };
        }
        self.focus_from_keyboard = true;
        let target = match map_get(&self.focus_neighbors, f) {
            Some(n) => match direction {
                ArrowDirection::Left => n.focus_left,
                ArrowDirection::Right => n.focus_right,
                ArrowDirection::Up => n.focus_up,
                ArrowDirection::Down => n.focus_down,
            },
            None => None,
        };
        match target {
            Some(t) => self.change_focus(t),
            None => FocusChange { previous: f, current: f },
        }
    }

    /// Registers an element's accessibility settings for this frame: it joins
    /// the tab order when `focusable`, and its arrow-key targets are recorded.
    pub fn register_accessibility(
        &mut self,
        element_id: u32,
        focusable: bool,
        tab_index: Option<i32>,
        neighbors: FocusNeighbors,
    )
        requires
            old(self).wf(),
            old(self)@.focusable_elements.len() < u32::MAX,
        ensures
            final(self).wf(),
            final(self)@ == (PlyContextView {
                focusable_elements: if focusable {
                    old(self)@.focusable_elements.push(FocusableEntry {
                        element_id: element_id,
                        tab_index: tab_index,
                        insertion_order: old(self)@.focusable_elements.len() as u32,
                    })
                } else {
                    old(self)@.focusable_elements
                },
                focus_neighbors: old(self)@.focus_neighbors.insert(element_id, neighbors),
                accessibility_element_order: old(self)@.accessibility_element_order.push(element_id),
                ..old(self)@
            }),
    {
        if focusable {
            let order = self.focusable_elements.len() as u32;
            self.focusable_elements.push(FocusableEntry { element_id, tab_index, insertion_order: order });
        }
        map_insert(&mut self.focus_neighbors, element_id, neighbors);
        self.accessibility_element_order.push(element_id);
    }

    /// Marks the element as one whose press does not take focus away.
    pub fn set_preserve_focus(&mut self, element_id: u32)
        ensures
            final(self)@ == (PlyContextView {
                element_map: if old(self)@.element_map.contains_key(element_id) {
                    old(self)@.element_map.insert(element_id, LayoutElementHashMapItem {
                        preserve_focus: true,
                        ..old(self)@.element_map[element_id]
                    })
                } else {
                    old(self)@.element_map
                },
                ..old(self)@
            }),
    {
        match map_remove(&mut self.layout_element_map, element_id) {
            Some(item) => {
                map_insert(&mut self.layout_element_map, element_id, LayoutElementHashMapItem { preserve_focus: true, ..item });
                proof {
                    assert(self.layout_element_map@ =~= old(self)@.element_map.insert(element_id, LayoutElementHashMapItem {
                        preserve_focus: true,
                        ..old(self)@.element_map[element_id]
                    }));
                }
            },
            None => {
                proof {
                    assert(self.layout_element_map@ =~= old(self)@.element_map);
                }
            },
        }
    }

    /// Applies a pointer update: `over_ids` are the elements under the pointer
    /// this frame (outermost first), `is_down` whether the button is held.
    /// On the frame the button goes down, a press on a text input focuses it
    /// (as a mouse focus) and reports the click; any other press clears focus
    /// unless an element under the pointer preserves it, and fires the press
    /// callbacks of every element under the pointer. Either way those elements
    /// become the pressed chain. On the frame the button goes up, the pressed
    /// chain is emptied and its release callbacks fire.
    pub fn update_pointer_state(&mut self, over_ids: Vec<Id>, is_down: bool) -> (ev: PointerEvents)
        ensures
            (final(self)@, ev@) == spec_pointer_update(old(self)@, over_ids@, is_down),
    {
        let f = self.focused_element_id;
        let no_change = FocusChange { previous: f, current: f };
        self.pointer_over_ids = over_ids;
        self.pointer_state = next_pointer_state(self.pointer_state, is_down);
        match self.pointer_state {
            PointerDataInteractionState::PressedThisFrame => {
                let n = self.pointer_over_ids.len();
                let clicked_text_input = if n > 0 {
                    match map_get(&self.layout_element_map, self.pointer_over_ids[n - 1].id) {
                        Some(item) => item.is_text_input,
                        None => false,
                    }
                } else {
                    false
                };
                if clicked_text_input {
                    self.focus_from_keyboard = false;
                    let top = self.pointer_over_ids[n - 1].id;
                    let change = if self.focused_element_id != top {
                        self.change_focus(top)
                    } else {
                        FocusChange { previous: f, current: f }
                    };
                    self.pressed_element_ids = clone_ids(&self.pointer_over_ids);
                    PointerEvents {
                        focus: change,
                        press_targets: Vec::new(),
                        release_targets: Vec::new(),
                        text_input_click: Some(top),
                    }
                } else {
                    let mut preserves = false;
                    let mut i: usize = 0;
                    while i < n
                        invariant
                            n == self.pointer_over_ids@.len(),
                            0 <= i <= n,
                            preserves == exists|j: int|
                                0 <= j < i && self.layout_element_map@.contains_key(#[trigger] self.pointer_over_ids@[j].id)
                                    && self.layout_element_map@[self.pointer_over_ids@[j].id].preserve_focus,
                        decreases n - i,
                    {
                        match map_get(&self.layout_element_map, self.pointer_over_ids[i].id) {
                            Some(item) => {
                                if item.preserve_focus {
                                    preserves = true;
                                }
                            },
                            None => {},
                        }
                        i = i + 1;
                    }
                    let change = if !preserves && self.focused_element_id != 0 {
                        self.change_focus(0)
                    } else {
                        FocusChange { previous: f, current: f }
                    };
                    self.pressed_element_ids = clone_ids(&self.pointer_over_ids);
                    PointerEvents {
                        focus: change,
                        press_targets: clone_ids(&self.pointer_over_ids),
                        release_targets: Vec::new(),
                        text_input_click: None,
                    }
                }
            },
            PointerDataInteractionState::ReleasedThisFrame => {
                let mut released: Vec<Id> = Vec::new();
                std::mem::swap(&mut released, &mut self.pressed_element_ids);
                PointerEvents {
                    focus: no_change,
                    press_targets: Vec::new(),
                    release_targets: released,
                    text_input_click: None,
                }
            },
            _ => PointerEvents {
                focus: no_change,
                press_targets: Vec::new(),
                release_targets: Vec::new(),
                text_input_click: None,
            },
        }
    }

    /// Updates the hover flags of `element_id` for a frame in which the
    /// pointer is (`inside`) or is not over it, and returns the new flags
    /// (unchanged defaults when the element is unknown).
    pub fn update_hover(&mut self, element_id: u32, inside: bool) -> (r: LayoutElementInteractionState)
        ensures
            old(self)@.element_map.contains_key(element_id) ==> {
                let h = spec_next_hover(old(self)@.element_map[element_id].hover, inside);
                &&& r == h
                &&& final(self)@ == (PlyContextView {
                    element_map: old(self)@.element_map.insert(element_id, LayoutElementHashMapItem {
                        hover: h,
                        ..old(self)@.element_map[element_id]
                    }),
                    ..old(self)@
                })
            },
            !old(self)@.element_map.contains_key(element_id) ==> final(self)@ == old(self)@
                && r == (LayoutElementInteractionState { hovered: false, just_added: false, just_removed: false }),
    {
        match map_remove(&mut self.layout_element_map, element_id) {
            Some(item) => {
                let mut h = item.hover;
                if inside {
                    if !h.hovered {
                        h.hovered = true;
                        h.just_added = true;
                    } else {
                        h.just_added = false;
                    }
                } else {
                    if h.hovered {
                        h.hovered = false;
                        h.just_removed = true;
                    } else {
                        h.just_removed = false;
                    }
                }
                map_insert(&mut self.layout_element_map, element_id, LayoutElementHashMapItem { hover: h, ..item });
                proof {
                    assert(self.layout_element_map@ =~= old(self)@.element_map.insert(element_id, LayoutElementHashMapItem {
                        hover: h,
                        ..old(self)@.element_map[element_id]
                    }));
                }
                h
            },
            None => {
                proof {
                    assert(self.layout_element_map@ =~= old(self)@.element_map);
                }
                LayoutElementInteractionState { hovered: false, just_added: false, just_removed: false }
            },
        }
    }

    /// Enter/Space on the focused element: pressing makes it the pressed chain
    /// and fires its press callback; releasing empties the pressed chain and
    /// fires the release callbacks of its elements.
    pub fn handle_keyboard_activation(&mut self, pressed: bool, released: bool) -> (ev: ActivationEvents)
        ensures
            ({
                let o = old(self)@;
                let f = o.focused_element_id;
                let press = f != 0 && pressed && o.element_map.contains_key(f);
                let after_press = if press {
                    PlyContextView { pressed_element_ids: seq![o.element_map[f].element_id], ..o }
                } else {
                    o
                };
                if f == 0 {
                    final(self)@ == o && ev.press_target is None && ev.release_targets@.len() == 0
                } else {
                    &&& ev.press_target == (if press { Some(o.element_map[f].element_id) } else { None })
                    &&& released ==> final(self)@ == (PlyContextView { pressed_element_ids: Seq::empty(), ..after_press })
                        && ev.release_targets@ == after_press.pressed_element_ids
                    &&& !released ==> final(self)@ == after_press && ev.release_targets@.len() == 0
                }
            }),
    {
        if self.focused_element_id == 0 {
            return ActivationEvents { press_target: None, release_targets: Vec::new() };
        }
        let mut press_target: Option<Id> = None;
        if pressed {
            match map_get(&self.layout_element_map, self.focused_element_id) {
                Some(item) => {
                    let id = item.element_id.clone();
                    let mut chain: Vec<Id> = Vec::new();
                    chain.push(id.clone());
                    proof {
                        assert(chain@ =~= seq![old(self)@.element_map[old(self)@.focused_element_id].element_id]);
                    }
                    self.pressed_element_ids = chain;
                    press_target = Some(id);
                },
                None => {},
            }
        }
        let mut release_targets: Vec<Id> = Vec::new();
        if released {
            std::mem::swap(&mut release_targets, &mut self.pressed_element_ids);
        }
        ActivationEvents { press_target, release_targets }
    }

    /// Whether the element `element_id` is under the pointer.
    pub fn is_element_hovered(&self, element_id: u32) -> (r: bool)
        ensures
            r == spec_ids_contain(self@.pointer_over_ids, element_id),
    {
        ids_contain(&self.pointer_over_ids, element_id)
    }

    /// Whether the element `element_id` is in the pressed chain.
    pub fn is_element_pressed(&self, element_id: u32) -> (r: bool)
        ensures
            r == spec_ids_contain(self@.pressed_element_ids, element_id),
    {
        ids_contain(&self.pressed_element_ids, element_id)
    }

    /// Whether the pointer is over the open element.
    pub fn hovered(&self) -> (r: bool)
        requires
            self.wf(),
            self@.tree.open_stack.len() > 0,
        ensures
            r == spec_ids_contain(self@.pointer_over_ids, self@.tree.elements[open_index(self@.tree)].id),
    {
        let id = self.get_open_element_id();
        self.is_element_hovered(id)
    }

    /// Whether the open element is in the pressed chain.
    pub fn pressed(&self) -> (r: bool)
        requires
            self.wf(),
            self@.tree.open_stack.len() > 0,
        ensures
            r == spec_ids_contain(self@.pressed_element_ids, self@.tree.elements[open_index(self@.tree)].id),
    {
        let id = self.get_open_element_id();
        self.is_element_pressed(id)
    }

    /// Whether the element with this id is under the pointer.
    pub fn pointer_over(&self, element_id: &Id) -> (r: bool)
        ensures
            r == spec_ids_contain(self@.pointer_over_ids, element_id.id),
    {
        ids_contain(&self.pointer_over_ids, element_id.id)
    }

    /// The elements under the pointer, outermost first.
    pub fn get_pointer_over_ids(&self) -> (r: &Vec<Id>)
        ensures
            r@ == self@.pointer_over_ids,
    {
        &self.pointer_over_ids
    }

    /// The pointer button's press state.
    pub fn pointer_state(&self) -> (r: PointerDataInteractionState)
        ensures
            r == self@.pointer_state,
    {
        self.pointer_state
    }

    /// The hover flags of `element_id` (all false for an unknown element).
    pub fn get_hover_state(&self, element_id: u32) -> (r: LayoutElementInteractionState)
        ensures
            r == (if self@.element_map.contains_key(element_id) {
                self@.element_map[element_id].hover
            } else {
                LayoutElementInteractionState { hovered: false, just_added: false, just_removed: false }
            }),
    {
        match map_get(&self.layout_element_map, element_id) {
            Some(item) => item.hover,
            None => LayoutElementInteractionState { hovered: false, just_added: false, just_removed: false },
        }
    }

    /// The element map entry of `element_id`, if it has one.
    pub fn get_element_item(&self, element_id: u32) -> (r: Option<&LayoutElementHashMapItem>)
        ensures
            match r {
                Some(item) => self@.element_map.contains_key(element_id) && *item == self@.element_map[element_id],
                None => !self@.element_map.contains_key(element_id),
            },
    {
        map_get(&self.layout_element_map, element_id)
    }

    /// The current frame number.
    pub fn generation(&self) -> (r: u32)
        ensures
            r == self@.generation,
    {
        self.generation
    }

    /// Sets the maximum number of elements per frame.
    pub fn set_max_element_count(&mut self, count: i32)
        ensures
            final(self)@ == (PlyContextView { max_element_count: count, ..old(self)@ }),
    {
        self.max_element_count = count;
    }

    /// Sets the maximum number of measured words kept by the text cache.
    pub fn set_max_measure_text_cache_word_count(&mut self, count: i32)
        ensures
            final(self)@ == (PlyContextView { max_measure_text_cache_word_count: count, ..old(self)@ }),
    {
        self.max_measure_text_cache_word_count = count;
    }

    /// Turns the debug view on or off.
    pub fn set_debug_mode_enabled(&mut self, enabled: bool)
        ensures
            final(self)@ == (PlyContextView { debug_mode_enabled: enabled, ..old(self)@ }),
    {
        self.debug_mode_enabled = enabled;
    }

    /// Whether the debug view is on.
    pub fn is_debug_mode_enabled(&self) -> (r: bool)
        ensures
            r == self@.debug_mode_enabled,
    {
        self.debug_mode_enabled
    }

    /// Turns culling of off-screen elements on or off.
    pub fn set_culling_enabled(&mut self, enabled: bool)
        ensures
            final(self)@ == (PlyContextView { culling_disabled: !enabled, ..old(self)@ }),
    {
        self.culling_disabled = !enabled;
    }

    /// Whether culling of off-screen elements is off.
    pub fn is_culling_disabled(&self) -> (r: bool)
        ensures
            r == self@.culling_disabled,
    {
        self.culling_disabled
    }

    /// The maximum number of elements per frame.
    pub fn max_element_count(&self) -> (r: i32)
        ensures
            r == self@.max_element_count,
    {
        self.max_element_count
    }

    /// The maximum number of measured words kept by the text cache.
    pub fn max_measure_text_cache_word_count(&self) -> (r: i32)
        ensures
            r == self@.max_measure_text_cache_word_count,
    {
        self.max_measure_text_cache_word_count
    }

    /// Sets whether scrolling is handled by the application rather than the engine.
    pub fn set_external_scroll_handling_enabled(&mut self, enabled: bool)
        ensures
            final(self)@ == (PlyContextView { external_scroll_handling_enabled: enabled, ..old(self)@ }),
    {
        self.external_scroll_handling_enabled = enabled;
    }

    /// Whether scrolling is handled by the application.
    pub fn external_scroll_handling_enabled(&self) -> (r: bool)
        ensures
            r == self@.external_scroll_handling_enabled,
    {
        self.external_scroll_handling_enabled
    }

    /// The element selected in the debug view (0 for none).
    pub fn debug_selected_element_id(&self) -> (r: u32)
        ensures
            r == self@.debug_selected_element_id,
    {
        self.debug_selected_element_id
    }

    /// Selects an element in the debug view; selecting it again deselects it.
    pub fn toggle_debug_selection(&mut self, element_id: u32)
        ensures
            final(self)@ == (PlyContextView {
                debug_selected_element_id: if old(self)@.debug_selected_element_id == element_id { 0 } else { element_id },
                ..old(self)@
            }),
    {
        if self.debug_selected_element_id == element_id {
            self.debug_selected_element_id = 0;
        } else {
            self.debug_selected_element_id = element_id;
        }
    }

    /// Collapses an expanded element of the debug view's list, or expands a
    /// collapsed one; an id without a map entry changes nothing.
    pub fn toggle_collapsed(&mut self, element_id: u32)
        ensures
            final(self)@ == spec_toggle_collapsed(old(self)@, element_id),
    {
        match map_remove(&mut self.layout_element_map, element_id) {
            Some(item) => {
                let flipped = LayoutElementHashMapItem { collapsed: !item.collapsed, ..item };
                map_insert(&mut self.layout_element_map, element_id, flipped);
                proof {
                    assert(self.layout_element_map@ =~= old(self)@.element_map.insert(
                        element_id,
                        LayoutElementHashMapItem { collapsed: !old(self)@.element_map[element_id].collapsed, ..old(self)@.element_map[element_id] },
                    ));
                }
            },
            None => {
                assert(self.layout_element_map@ =~= old(self)@.element_map);
            },
        }
        assert(self@ =~= spec_toggle_collapsed(old(self)@, element_id));
    }

    /// A press in the debug view's list on a collapse button toggles the
    /// element it belongs to: the last collapse button under the pointer
    /// (its label's hash is the base id, the element's id its offset).
    pub fn debug_collapse_click(&mut self)
        ensures
            final(self)@ == spec_debug_collapse_click(old(self)@),
    {
        if self.pointer_state != PointerDataInteractionState::PressedThisFrame {
            return;
        }
        let base = hash_string("Ply__DebugView_CollapseElement", 0).base_id;
        let mut i: usize = self.pointer_over_ids.len();
        assert(self@.pointer_over_ids.take(i as int) =~= self@.pointer_over_ids);
        while i > 0
            invariant
                0 <= i <= self.pointer_over_ids@.len(),
                self@ == old(self)@,
                self@.pointer_state == PointerDataInteractionState::PressedThisFrame,
                base == spec_label_id("Ply__DebugView_CollapseElement".spec_bytes(), 0),
                collapse_target(self@.pointer_over_ids, base) == collapse_target(self@.pointer_over_ids.take(i as int), base),
            decreases i,
        {
            let ghost pre = self@.pointer_over_ids.take(i as int);
            assert(pre.drop_last() =~= self@.pointer_over_ids.take(i - 1));
            assert(pre.last() == self@.pointer_over_ids[i - 1]);
            if self.pointer_over_ids[i - 1].base_id == base {
                let target = self.pointer_over_ids[i - 1].offset;
                assert(collapse_target(pre, base) == Some(target));
                assert(collapse_target(old(self)@.pointer_over_ids, spec_label_id("Ply__DebugView_CollapseElement".spec_bytes(), 0)) == Some(target));
                self.toggle_collapsed(target);
                return;
            }
            i = i - 1;
        }
        assert(self@.pointer_over_ids.take(0) =~= Seq::<Id>::empty());
    }

    /// A press on the debug view's close button turns the view off; one on
    /// the header of its panel deselects the selected element.
    pub fn debug_view_click(&mut self)
        ensures
            final(self)@ == spec_debug_view_click(old(self)@),
    {
        if self.pointer_state != PointerDataInteractionState::PressedThisFrame {
            return;
        }
        let close = hash_string("Ply__DebugView_CloseButton", 0).id;
        let header = hash_string("Ply__DebugView_LayoutConfigHeader", 0).id;
        let mut i: usize = self.pointer_over_ids.len();
        assert(self@.pointer_over_ids.take(i as int) =~= self@.pointer_over_ids);
        while i > 0
            invariant
                0 <= i <= self.pointer_over_ids@.len(),
                self@ == old(self)@,
                self@.pointer_state == PointerDataInteractionState::PressedThisFrame,
                close == spec_label_id("Ply__DebugView_CloseButton".spec_bytes(), 0),
                header == spec_label_id("Ply__DebugView_LayoutConfigHeader".spec_bytes(), 0),
                debug_button_target(self@.pointer_over_ids, close, header)
                    == debug_button_target(self@.pointer_over_ids.take(i as int), close, header),
            decreases i,
        {
            let ghost pre = self@.pointer_over_ids.take(i as int);
            assert(pre.drop_last() =~= self@.pointer_over_ids.take(i - 1));
            assert(pre.last() == self@.pointer_over_ids[i - 1]);
            let id = self.pointer_over_ids[i - 1].id;
            if id == close {
                self.debug_mode_enabled = false;
                return;
            }
            if id == header {
                self.debug_selected_element_id = 0;
                return;
            }
            i = i - 1;
        }
        assert(self@.pointer_over_ids.take(0) =~= Seq::<Id>::empty());
    }

    /// Registers a text input declared this frame: records its settings,
    /// marks its element-map entry as a text input, gives it an empty editing
    /// state if it has none yet, and (unless its accessibility settings
    /// already made it focusable) adds it to the tab order once.
    pub fn register_text_input(&mut self, element_id: u32, settings: TextInputSettings, focusable_via_accessibility: bool)
        requires
            old(self).wf(),
            old(self)@.focusable_elements.len() < u32::MAX,
        ensures
            final(self).wf(),
            ({
                let o = old(self)@;
                let joins = !focusable_via_accessibility && !spec_is_focusable(o.focusable_elements, element_id);
                &&& final(self)@ == (PlyContextView {
                    text_input_configs: o.text_input_configs.push(settings),
                    text_input_element_ids: o.text_input_element_ids.push(element_id),
                    element_map: if o.element_map.contains_key(element_id) {
                        o.element_map.insert(element_id, LayoutElementHashMapItem {
                            is_text_input: true,
                            ..o.element_map[element_id]
                        })
                    } else {
                        o.element_map
                    },
                    focusable_elements: if joins {
                        o.focusable_elements.push(FocusableEntry {
                            element_id: element_id,
                            tab_index: None,
                            insertion_order: o.focusable_elements.len() as u32,
                        })
                    } else {
                        o.focusable_elements
                    },
                    text_edit_states: final(self)@.text_edit_states,
                    ..o
                })
                &&& final(self)@.text_edit_states.contains_key(element_id)
                &&& o.text_edit_states.contains_key(element_id) ==> final(self)@.text_edit_states == o.text_edit_states
                &&& !o.text_edit_states.contains_key(element_id) ==> {
                    &&& final(self)@.text_edit_states.remove(element_id) == o.text_edit_states
                    &&& final(self)@.text_edit_states[element_id].text@ == Seq::<char>::empty()
                    &&& final(self)@.text_edit_states[element_id].cursor_pos == 0
                    &&& final(self)@.text_edit_states[element_id].selection_anchor is None
                }
            }),
    {
        self.text_input_configs.push(settings);
        self.text_input_element_ids.push(element_id);
        match map_remove(&mut self.layout_element_map, element_id) {
            Some(item) => {
                map_insert(&mut self.layout_element_map, element_id, LayoutElementHashMapItem { is_text_input: true, ..item });
                proof {
                    assert(self.layout_element_map@ =~= old(self)@.element_map.insert(element_id, LayoutElementHashMapItem {
                        is_text_input: true,
                        ..old(self)@.element_map[element_id]
                    }));
                }
            },
            None => {
                proof {
                    assert(self.layout_element_map@ =~= old(self)@.element_map);
                }
            },
        }
        if !map_contains(&self.text_edit_states, element_id) {
            map_insert(&mut self.text_edit_states, element_id, TextEditState::new());
            proof {
                assert(self.text_edit_states@.remove(element_id) =~= old(self)@.text_edit_states);
            }
        }
        if !focusable_via_accessibility {
            let mut already = false;
            let mut i: usize = 0;
            while i < self.focusable_elements.len()
                invariant
                    0 <= i <= self.focusable_elements@.len(),
                    already == exists|j: int| 0 <= j < i && #[trigger] self.focusable_elements@[j].element_id == element_id,
                decreases self.focusable_elements.len() - i,
            {
                if self.focusable_elements[i].element_id == element_id {
                    already = true;
                }
                i = i + 1;
            }
            if !already {
                let order = self.focusable_elements.len() as u32;
                self.focusable_elements.push(FocusableEntry { element_id, tab_index: None, insertion_order: order });
            }
        }
    }

    /// Whether the focused element is a text input.
    pub fn is_text_input_focused(&self) -> (r: bool)
        ensures
            r == (self@.focused_element_id != 0 && self@.text_edit_states.contains_key(self@.focused_element_id)),
    {
        if self.focused_element_id == 0 {
            return false;
        }
        map_contains(&self.text_edit_states, self.focused_element_id)
    }

    /// Whether the focused element is a text input declared multiline this frame.
    pub fn is_focused_text_input_multiline(&self) -> (r: bool)
        requires
            self.wf(),
        ensures
            ({
                let v = self@;
                let p = first_pos_u32(v.text_input_element_ids, v.focused_element_id);
                r == (v.focused_element_id != 0 && p >= 0 && v.text_input_configs[p].is_multiline)
            }),
    {
        if self.focused_element_id == 0 {
            return false;
        }
        match find_u32(&self.text_input_element_ids, self.focused_element_id) {
            Some(p) => self.text_input_configs[p].is_multiline,
            None => false,
        }
    }

    /// How `action` is carried out on the focused text input, or `None` when
    /// no text input has focus and the action is not consumed.
    pub fn plan_text_input_action(&self, action: &TextInputAction) -> (r: Option<TextActionPlan>)
        requires
            self.wf(),
        ensures
            r == spec_plan_text_input_action(self@, *action),
    {
        if !self.is_text_input_focused() {
            return None;
        }
        let settings = match self.focused_text_input_settings() {
            Some(s) => s,
            None => TextInputSettings { is_multiline: false, max_length: None },
        };
        let submit = match action {
            TextInputAction::Submit => !settings.is_multiline,
            _ => false,
        };
        Some(TextActionPlan {
            element_id: self.focused_element_id,
            settings,
            undo: undo_kind_for_action(action, settings.is_multiline),
            submit,
        })
    }

    /// The settings of the focused text input, if it was declared this frame.
    pub fn focused_text_input_settings(&self) -> (r: Option<TextInputSettings>)
        requires
            self.wf(),
        ensures
            ({
                let v = self@;
                let p = first_pos_u32(v.text_input_element_ids, v.focused_element_id);
                r == (if v.focused_element_id != 0 && p >= 0 { Some(v.text_input_configs[p]) } else { None })
            }),
    {
        if self.focused_element_id == 0 {
            return None;
        }
        match find_u32(&self.text_input_element_ids, self.focused_element_id) {
            Some(p) => Some(self.text_input_configs[p]),
            None => None,
        }
    }

    /// The text of a text input, or the empty text when it has none.
    pub fn get_text_value(&self, element_id: u32) -> (r: &str)
        ensures
            r@ == spec_text_value(self@, element_id),
    {
        match map_get(&self.text_edit_states, element_id) {
            Some(state) => state.text.as_str(),
            None => {
                proof {
                    reveal_strlit("");
                }
                ""
            },
        }
    }

    /// Sets the text of a text input (creating its editing state if needed),
    /// keeps the caret within the new text and clears the selection.
    pub fn set_text_value(&mut self, element_id: u32, value: &str)
        ensures
            final(self)@ == (PlyContextView { text_edit_states: final(self)@.text_edit_states, ..old(self)@ }),
            final(self)@.text_edit_states.remove(element_id) == old(self)@.text_edit_states.remove(element_id),
            final(self)@.text_edit_states.contains_key(element_id),
            final(self)@.text_edit_states[element_id].text@ == value@,
            final(self)@.text_edit_states[element_id].cursor_pos == (if old(self)@.text_edit_states.contains_key(element_id) {
                min(old(self)@.text_edit_states[element_id].cursor_pos as int, value@.len() as int)
            } else {
                0
            }),
            final(self)@.text_edit_states[element_id].selection_anchor is None,
    {
        let mut state = match map_remove(&mut self.text_edit_states, element_id) {
            Some(st) => st,
            None => TextEditState::new(),
        };
        state.text = value.to_owned();
        let max_pos = value.unicode_len();
        if state.cursor_pos > max_pos {
            state.cursor_pos = max_pos;
        }
        state.selection_anchor = None;
        map_insert(&mut self.text_edit_states, element_id, state);
        proof {
            assert(self.text_edit_states@.remove(element_id) =~= old(self)@.text_edit_states.remove(element_id));
        }
    }

    /// The caret position of a text input, or 0 when it has no editing state.
    pub fn get_cursor_pos(&self, element_id: u32) -> (r: usize)
        ensures
            r == (if self@.text_edit_states.contains_key(element_id) {
                self@.text_edit_states[element_id].cursor_pos
            } else {
                0
            }),
    {
        match map_get(&self.text_edit_states, element_id) {
            Some(state) => state.cursor_pos,
            None => 0,
        }
    }

    /// Places the caret of a text input (clamped to its text) and clears the selection.
    pub fn set_cursor_pos(&mut self, element_id: u32, pos: usize)
        ensures
            final(self)@ == (PlyContextView { text_edit_states: final(self)@.text_edit_states, ..old(self)@ }),
            !old(self)@.text_edit_states.contains_key(element_id) ==> final(self)@.text_edit_states == old(self)@.text_edit_states,
            old(self)@.text_edit_states.contains_key(element_id) ==> {
                let st = old(self)@.text_edit_states[element_id];
                let nst = final(self)@.text_edit_states[element_id];
                &&& final(self)@.text_edit_states.contains_key(element_id)
                &&& final(self)@.text_edit_states.remove(element_id) == old(self)@.text_edit_states.remove(element_id)
                &&& nst.text == st.text
                &&& nst.cursor_pos == min(pos as int, st.text@.len() as int)
                &&& nst.selection_anchor is None
            },
    {
        match map_remove(&mut self.text_edit_states, element_id) {
            Some(mut state) => {
                let max_pos = state.text.as_str().unicode_len();
                state.cursor_pos = if pos < max_pos { pos } else { max_pos };
                state.selection_anchor = None;
                map_insert(&mut self.text_edit_states, element_id, state);
                proof {
                    assert(self.text_edit_states@.remove(element_id) =~= old(self)@.text_edit_states.remove(element_id));
                }
            },
            None => {
                proof {
                    assert(self.text_edit_states@ =~= old(self)@.text_edit_states);
                }
            },
        }
    }


    /// Moves the caret of a text input along visual lines to `new_pos`,
    /// extending the selection when `shift` is held.
    pub fn move_text_caret(&mut self, element_id: u32, new_pos: usize, shift: bool)
        ensures
            final(self)@ == (PlyContextView { text_edit_states: final(self)@.text_edit_states, ..old(self)@ }),
            !old(self)@.text_edit_states.contains_key(element_id) ==> final(self)@.text_edit_states == old(self)@.text_edit_states,
            old(self)@.text_edit_states.contains_key(element_id) ==> {
                let st = old(self)@.text_edit_states[element_id];
                let nst = final(self)@.text_edit_states[element_id];
                &&& final(self)@.text_edit_states.contains_key(element_id)
                &&& final(self)@.text_edit_states.remove(element_id) == old(self)@.text_edit_states.remove(element_id)
                &&& nst.text == st.text
                &&& nst.cursor_pos == new_pos
                &&& nst.selection_anchor == spec_moved_anchor(st.selection_anchor, st.cursor_pos, new_pos, shift)
            },
    {
        match map_remove(&mut self.text_edit_states, element_id) {
            Some(mut state) => {
                state.move_caret_to(new_pos, shift);
                map_insert(&mut self.text_edit_states, element_id, state);
                proof {
                    assert(self.text_edit_states@.remove(element_id) =~= old(self)@.text_edit_states.remove(element_id));
                }
            },
            None => {
                proof {
                    assert(self.text_edit_states@ =~= old(self)@.text_edit_states);
                }
            },
        }
    }

    /// Puts the caret of a text input at `pos` where it was clicked,
    /// extending the selection when `shift` is held.
    pub fn click_text_caret(&mut self, element_id: u32, pos: usize, shift: bool)
        ensures
            final(self)@ == (PlyContextView { text_edit_states: final(self)@.text_edit_states, ..old(self)@ }),
            !old(self)@.text_edit_states.contains_key(element_id) ==> final(self)@.text_edit_states == old(self)@.text_edit_states,
            old(self)@.text_edit_states.contains_key(element_id) ==> {
                let st = old(self)@.text_edit_states[element_id];
                let nst = final(self)@.text_edit_states[element_id];
                &&& final(self)@.text_edit_states.contains_key(element_id)
                &&& final(self)@.text_edit_states.remove(element_id) == old(self)@.text_edit_states.remove(element_id)
                &&& nst.text == st.text
                &&& nst.cursor_pos == pos
                &&& nst.selection_anchor == spec_clicked_anchor(st.selection_anchor, st.cursor_pos, shift)
            },
    {
        match map_remove(&mut self.text_edit_states, element_id) {
            Some(mut state) => {
                state.click_caret_to(pos, shift);
                map_insert(&mut self.text_edit_states, element_id, state);
                proof {
                    assert(self.text_edit_states@.remove(element_id) =~= old(self)@.text_edit_states.remove(element_id));
                }
            },
            None => {
                proof {
                    assert(self.text_edit_states@ =~= old(self)@.text_edit_states);
                }
            },
        }
    }

    /// Selects from `anchor` to `cursor` in a text input (both clamped to its text).
    pub fn set_selection(&mut self, element_id: u32, anchor: usize, cursor: usize)
        ensures
            final(self)@ == (PlyContextView { text_edit_states: final(self)@.text_edit_states, ..old(self)@ }),
            !old(self)@.text_edit_states.contains_key(element_id) ==> final(self)@.text_edit_states == old(self)@.text_edit_states,
            old(self)@.text_edit_states.contains_key(element_id) ==> {
                let st = old(self)@.text_edit_states[element_id];
                let nst = final(self)@.text_edit_states[element_id];
                &&& final(self)@.text_edit_states.contains_key(element_id)
                &&& final(self)@.text_edit_states.remove(element_id) == old(self)@.text_edit_states.remove(element_id)
                &&& nst.text == st.text
                &&& nst.cursor_pos == min(cursor as int, st.text@.len() as int)
                &&& nst.selection_anchor == Some(min(anchor as int, st.text@.len() as int) as usize)
            },
    {
        match map_remove(&mut self.text_edit_states, element_id) {
            Some(mut state) => {
                let max_pos = state.text.as_str().unicode_len();
                state.selection_anchor = Some(if anchor < max_pos { anchor } else { max_pos });
                state.cursor_pos = if cursor < max_pos { cursor } else { max_pos };
                map_insert(&mut self.text_edit_states, element_id, state);
                proof {
                    assert(self.text_edit_states@.remove(element_id) =~= old(self)@.text_edit_states.remove(element_id));
                }
            },
            None => {
                proof {
                    assert(self.text_edit_states@ =~= old(self)@.text_edit_states);
                }
            },
        }
    }

    /// The debug view's name of a horizontal alignment.
    pub fn align_x_name(value: AlignX) -> (r: &'static str)
        ensures
            r@ == (match value {
                AlignX::Left => "LEFT"@,
                AlignX::CenterX => "CENTER"@,
                AlignX::Right => "RIGHT"@,
            }),
    {
        match value {
            AlignX::Left => "LEFT",
            AlignX::CenterX => "CENTER",
            AlignX::Right => "RIGHT",
        }
    }

    /// The debug view's name of a vertical alignment.
    pub fn align_y_name(value: AlignY) -> (r: &'static str)
        ensures
            r@ == (match value {
                AlignY::Top => "TOP"@,
                AlignY::CenterY => "CENTER"@,
                AlignY::Bottom => "BOTTOM"@,
            }),
    {
        match value {
            AlignY::Top => "TOP",
            AlignY::CenterY => "CENTER",
            AlignY::Bottom => "BOTTOM",
        }
    }

    /// The debug view's label of a configuration kind (its badge color is
    /// chosen by the caller).
    pub fn debug_get_config_type_label(config_type: ElementConfigType) -> (r: &'static str)
        ensures
            r@ == (match config_type {
                ElementConfigType::Shared => "Shared"@,
                ElementConfigType::Text => "Text"@,
                ElementConfigType::Aspect => "Aspect"@,
                ElementConfigType::Image => "Image"@,
                ElementConfigType::Floating => "Floating"@,
                ElementConfigType::Clip => "Overflow"@,
                ElementConfigType::Border => "Border"@,
                ElementConfigType::Custom => "Custom"@,
                ElementConfigType::TextInput => "TextInput"@,
            }),
    {
        match config_type {
            ElementConfigType::Shared => "Shared",
            ElementConfigType::Text => "Text",
            ElementConfigType::Aspect => "Aspect",
            ElementConfigType::Image => "Image",
            ElementConfigType::Floating => "Floating",
            ElementConfigType::Clip => "Overflow",
            ElementConfigType::Border => "Border",
            ElementConfigType::Custom => "Custom",
            ElementConfigType::TextInput => "TextInput",
        }
    }

    /// The debug view's label of a sizing kind.
    pub fn sizing_type_label(sizing: SizingType) -> (r: &'static str)
        ensures
            r@ == (match sizing {
                SizingType::Fit => "FIT"@,
                SizingType::Grow => "GROW"@,
                SizingType::Percent => "PERCENT"@,
                SizingType::Fixed => "FIXED"@,
            }),
    {
        match sizing {
            SizingType::Fit => "FIT",
            SizingType::Grow => "GROW",
            SizingType::Percent => "PERCENT",
            SizingType::Fixed => "FIXED",
        }
    }

    /// Records that `element_id` is declared this frame at layout index
    /// `layout_element_index`, and reports whether it is new, known from an
    /// earlier frame, or a duplicate within this frame.
    pub fn add_hash_map_item(&mut self, element_id: &Id, layout_element_index: i32) -> (outcome: MapItemOutcome)
        requires
            old(self)@.generation < u32::MAX,
        ensures
            final(self)@ == (PlyContextView {
                element_map: spec_add_item(old(self)@.element_map, *element_id, layout_element_index, old(self)@.generation),
                ..old(self)@
            }),
            outcome == spec_add_outcome(old(self)@.element_map, *element_id, old(self)@.generation),
    {
        let gen = self.generation;
        let key = element_id.id;
        match map_remove(&mut self.layout_element_map, key) {
            Some(item) => {
                if item.generation <= gen {
                    let hover_reset = gen - item.generation > 1;
                    let hover = if hover_reset {
                        LayoutElementInteractionState { hovered: false, just_added: false, just_removed: false }
                    } else {
                        item.hover
                    };
                    let refreshed = LayoutElementHashMapItem {
                        element_id: element_id.clone(),
                        layout_element_index,
                        hover,
                        is_text_input: false,
                        preserve_focus: false,
                        generation: gen + 1,
                        collision: false,
                        collapsed: item.collapsed,
                    };
                    map_insert(&mut self.layout_element_map, key, refreshed);
                    proof {
                        assert(self.layout_element_map@ =~= spec_add_item(old(self)@.element_map, *element_id, layout_element_index, gen));
                    }
                    MapItemOutcome::Refreshed { hover_reset }
                } else {
                    let flagged = LayoutElementHashMapItem { collision: true, ..item };
                    map_insert(&mut self.layout_element_map, key, flagged);
                    proof {
                        assert(self.layout_element_map@ =~= spec_add_item(old(self)@.element_map, *element_id, layout_element_index, gen));
                    }
                    MapItemOutcome::Collision
                }
            },
            None => {
                let fresh = LayoutElementHashMapItem {
                    element_id: element_id.clone(),
                    layout_element_index,
                    hover: LayoutElementInteractionState { hovered: false, just_added: false, just_removed: false },
                    is_text_input: false,
                    preserve_focus: false,
                    generation: gen + 1,
                    collision: false,
                    collapsed: false,
                };
                map_insert(&mut self.layout_element_map, key, fresh);
                proof {
                    assert(self.layout_element_map@ =~= spec_add_item(old(self)@.element_map, *element_id, layout_element_index, gen));
                }
                MapItemOutcome::Inserted
            },
        }
    }
}

} // verus!
