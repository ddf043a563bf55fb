use vstd::prelude::*;
use crate::align::{AlignX, AlignY};
use crate::engine;
use crate::id::Id;

verus! {

/// Specifies how pointer capture should behave for floating elements.
#[derive(Debug, Clone, Copy, PartialEq, Eq, Structural, Default)]
pub enum PointerCaptureMode {
    /// Captures all pointer input.
    #[default]
    Capture,
    /// Allows pointer input to pass through.
    Passthrough,
}

/// Defines how a floating element is attached to other elements.
#[derive(Debug, Clone, Copy, PartialEq, Eq, Structural, Default)]
pub enum FloatingAttachToElement {
    /// No attachment was chosen; the element is attached to its parent, the
    /// default behavior.
    #[default]
    Unattached,
    /// The floating element is attached to its parent element.
    Parent,
    /// The floating element is attached to a specific element identified by an ID.
    ElementWithId,
    /// The floating element is attached to the root of the layout.
    Root,
}

/// Defines how a floating element is clipped.
#[derive(Debug, Clone, Copy, PartialEq, Eq, Structural, Default)]
pub enum FloatingClipToElement {
    /// The floating element is not clipped.
    #[default]
    Unclipped,
    /// The floating element is clipped to the attached parent.
    AttachedParent,
}

/// Builder for configuring floating element properties.
pub struct FloatingBuilder {
    pub config: engine::FloatingConfig,
}

impl FloatingBuilder {
    /// Sets the floating element's Z-index.
    pub fn z_index(&mut self, z_index: i16) -> (r: &mut Self)
        ensures
            r.config == (engine::FloatingConfig { z_index: z_index, ..old(self).config }),
            *final(self) == *final(r),
    {
        self.config.z_index = z_index;
        self
    }

    /// Sets the attachment points of the floating element and its parent.
    ///
    /// Each tuple is `(AlignX, AlignY)`: the first for the element, the second for the parent.
    pub fn anchor(&mut self, element: (AlignX, AlignY), parent: (AlignX, AlignY)) -> (r: &mut Self)
        ensures
            r.config == (engine::FloatingConfig {
                attach_points: engine::FloatingAttachPoints {
                    element_x: element.0,
                    element_y: element.1,
                    parent_x: parent.0,
                    parent_y: parent.1,
                },
                ..old(self).config
            }),
            *final(self) == *final(r),
    {
        self.config.attach_points.element_x = element.0;
        self.config.attach_points.element_y = element.1;
        self.config.attach_points.parent_x = parent.0;
        self.config.attach_points.parent_y = parent.1;
        self
    }

    /// Attaches this floating element to its parent element (default behavior).
    pub fn attach_parent(&mut self) -> (r: &mut Self)
        ensures
            r.config == (engine::FloatingConfig {
                attach_to: FloatingAttachToElement::Parent,
                ..old(self).config
            }),
            *final(self) == *final(r),
    {
        self.config.attach_to = FloatingAttachToElement::Parent;
        self
    }

    /// Attaches this floating element to the root of the layout.
    pub fn attach_root(&mut self) -> (r: &mut Self)
        ensures
            r.config == (engine::FloatingConfig {
                attach_to: FloatingAttachToElement::Root,
                ..old(self).config
            }),
            *final(self) == *final(r),
    {
        self.config.attach_to = FloatingAttachToElement::Root;
        self
    }

    /// Attaches this floating element to a specific element by ID.
    pub fn attach_id(&mut self, id: Id) -> (r: &mut Self)
        ensures
            r.config == (engine::FloatingConfig {
                attach_to: FloatingAttachToElement::ElementWithId,
                parent_id: id.id,
                ..old(self).config
            }),
            *final(self) == *final(r),
    {
        self.config.attach_to = FloatingAttachToElement::ElementWithId;
        self.config.parent_id = id.id;
        self
    }

    /// Clips this floating element to its parent's bounds.
    pub fn clip_by_parent(&mut self) -> (r: &mut Self)
        ensures
            r.config == (engine::FloatingConfig {
                clip_to: FloatingClipToElement::AttachedParent,
                ..old(self).config
            }),
            *final(self) == *final(r),
    {
        self.config.clip_to = FloatingClipToElement::AttachedParent;
        self
    }

    /// Sets pointer capture mode to Passthrough.
    pub fn passthrough(&mut self) -> (r: &mut Self)
        ensures
            r.config == (engine::FloatingConfig {
                pointer_capture_mode: PointerCaptureMode::Passthrough,
                ..old(self).config
            }),
            *final(self) == *final(r),
    {
        self.config.pointer_capture_mode = PointerCaptureMode::Passthrough;
        self
    }
}

/// Builder for configuring overflow (clip/scroll) properties.
pub struct OverflowBuilder {
    pub config: engine::ClipConfig,
}

impl OverflowBuilder {
    /// Clips horizontal overflow without enabling scrolling.
    pub fn clip_x(&mut self) -> (r: &mut Self)
        ensures
            r.config == (engine::ClipConfig { horizontal: true, ..old(self).config }),
            *final(self) == *final(r),
    {
        self.config.horizontal = true;
        self
    }

    /// Clips vertical overflow without enabling scrolling.
    pub fn clip_y(&mut self) -> (r: &mut Self)
        ensures
            r.config == (engine::ClipConfig { vertical: true, ..old(self).config }),
            *final(self) == *final(r),
    {
        self.config.vertical = true;
        self
    }

    /// Clips both axes without enabling scrolling.
    pub fn clip(&mut self) -> (r: &mut Self)
        ensures
            r.config == (engine::ClipConfig { horizontal: true, vertical: true, ..old(self).config }),
            *final(self) == *final(r),
    {
        self.config.horizontal = true;
        self.config.vertical = true;
        self
    }

    /// Enables horizontal scrolling (implies clip on this axis).
    pub fn scroll_x(&mut self) -> (r: &mut Self)
        ensures
            r.config == (engine::ClipConfig { horizontal: true, scroll_x: true, ..old(self).config }),
            *final(self) == *final(r),
    {
        self.config.horizontal = true;
        self.config.scroll_x = true;
        self
    }

    /// Enables vertical scrolling (implies clip on this axis).
    pub fn scroll_y(&mut self) -> (r: &mut Self)
        ensures
            r.config == (engine::ClipConfig { vertical: true, scroll_y: true, ..old(self).config }),
            *final(self) == *final(r),
    {
        self.config.vertical = true;
        self.config.scroll_y = true;
        self
    }

    /// Enables scrolling on both axes (implies clip on both axes).
    pub fn scroll(&mut self) -> (r: &mut Self)
        ensures
            r.config == (engine::ClipConfig {
                horizontal: true,
                vertical: true,
                scroll_x: true,
                scroll_y: true,
            }),
            *final(self) == *final(r),
    {
        self.config.horizontal = true;
        self.config.vertical = true;
        self.config.scroll_x = true;
        self.config.scroll_y = true;
        self
    }
}

/// Builder for configuring border properties.
pub struct BorderBuilder {
    pub config: engine::BorderConfig,
}

/// Defines the position of the border relative to the bounding box.
#[derive(Debug, Clone, Copy, PartialEq, Eq, Structural, Default)]
pub enum BorderPosition {
    /// Fully outside the bounding box.
    #[default]
    Outside,
    /// Half inside, half outside the bounding box.
    Middle,
    /// Fully inside the bounding box.
    Inside,
}

impl BorderBuilder {
    /// Set the same border width for all sides.
    pub fn all(&mut self, width: u16) -> (r: &mut Self)
        ensures
            r.config == (engine::BorderConfig {
                width: engine::BorderWidth {
                    left: width,
                    right: width,
                    top: width,
                    bottom: width,
                    ..old(self).config.width
                },
                ..old(self).config
            }),
            *final(self) == *final(r),
    {
        self.config.width.left = width;
        self.config.width.right = width;
        self.config.width.top = width;
        self.config.width.bottom = width;
        self
    }

    /// Sets the left border width.
    pub fn left(&mut self, width: u16) -> (r: &mut Self)
        ensures
            r.config == (engine::BorderConfig {
                width: engine::BorderWidth { left: width, ..old(self).config.width },
                ..old(self).config
            }),
            *final(self) == *final(r),
    {
        self.config.width.left = width;
        self
    }

    /// Sets the right border width.
    pub fn right(&mut self, width: u16) -> (r: &mut Self)
        ensures
            r.config == (engine::BorderConfig {
                width: engine::BorderWidth { right: width, ..old(self).config.width },
                ..old(self).config
            }),
            *final(self) == *final(r),
    {
        self.config.width.right = width;
        self
    }

    /// Sets the top border width.
    pub fn top(&mut self, width: u16) -> (r: &mut Self)
        ensures
            r.config == (engine::BorderConfig {
                width: engine::BorderWidth { top: width, ..old(self).config.width },
                ..old(self).config
            }),
            *final(self) == *final(r),
    {
        self.config.width.top = width;
        self
    }

    /// Sets the bottom border width.
    pub fn bottom(&mut self, width: u16) -> (r: &mut Self)
        ensures
            r.config == (engine::BorderConfig {
                width: engine::BorderWidth { bottom: width, ..old(self).config.width },
                ..old(self).config
            }),
            *final(self) == *final(r),
    {
        self.config.width.bottom = width;
        self
    }

    /// Sets the border drawn between child elements.
    pub fn between_children(&mut self, width: u16) -> (r: &mut Self)
        ensures
            r.config == (engine::BorderConfig {
                width: engine::BorderWidth { between_children: width, ..old(self).config.width },
                ..old(self).config
            }),
            *final(self) == *final(r),
    {
        self.config.width.between_children = width;
        self
    }

    /// Sets the position of the border relative to the bounding box.
    pub fn position(&mut self, position: BorderPosition) -> (r: &mut Self)
        ensures
            r.config == (engine::BorderConfig { position: position, ..old(self).config }),
            *final(self) == *final(r),
    {
        self.config.position = position;
        self
    }
}

/// Builder for configuring visual rotation (render-target based).
/// Holds the flips; the angle and pivot are kept by the caller.
pub struct VisualRotationBuilder {
    pub config: engine::VisualRotationConfig,
}

impl VisualRotationBuilder {
    /// Flips the element horizontally (mirror across the vertical axis).
    pub fn flip_x(&mut self) -> (r: &mut Self)
        ensures
            r.config == (engine::VisualRotationConfig { flip_x: true, ..old(self).config }),
            *final(self) == *final(r),
    {
        self.config.flip_x = true;
        self
    }

    /// Flips the element vertically (mirror across the horizontal axis).
    pub fn flip_y(&mut self) -> (r: &mut Self)
        ensures
            r.config == (engine::VisualRotationConfig { flip_y: true, ..old(self).config }),
            *final(self) == *final(r),
    {
        self.config.flip_y = true;
        self
    }
}

/// Builder for configuring shape rotation (vertex-level).
/// Holds the flips; the angle is kept by the caller.
pub struct ShapeRotationBuilder {
    pub config: engine::ShapeRotationConfig,
}

impl ShapeRotationBuilder {
    /// Flips the shape horizontally (applied before rotation).
    pub fn flip_x(&mut self) -> (r: &mut Self)
        ensures
            r.config == (engine::ShapeRotationConfig { flip_x: true, ..old(self).config }),
            *final(self) == *final(r),
    {
        self.config.flip_x = true;
        self
    }

    /// Flips the shape vertically (applied before rotation).
    pub fn flip_y(&mut self) -> (r: &mut Self)
        ensures
            r.config == (engine::ShapeRotationConfig { flip_y: true, ..old(self).config }),
            *final(self) == *final(r),
    {
        self.config.flip_y = true;
        self
    }
}

} // verus!
