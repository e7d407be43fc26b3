//! The painter: walking a laid-out box tree into an ordered display list of
//! primitive drawing commands, and a software canvas that consumes one.

use vstd::prelude::*;

use crate::assoc::assoc;
use crate::css::{Color, Value, ValueV};
use crate::geometry::{clip, px_add, Rect};
use crate::layout::{box_style, BoxType, BoxTypeV, LayoutBox, LayoutBoxV};
use crate::style::PropertyMap;

verus! {

/// A primitive drawing command; the display list is the only handoff to a
/// rasterization backend, so it carries no backend-specific types.
#[derive(PartialEq, Eq, Structural, Clone, Copy, Debug)]
pub enum DisplayCommand {
    SolidColor(Color, Rect),
}

/// The colour of a command.
pub open spec fn cmd_color(c: DisplayCommand) -> Color {
    match c {
        DisplayCommand::SolidColor(color, _) => color,
    }
}

/// The rectangle of a command.
pub open spec fn cmd_rect(c: DisplayCommand) -> Rect {
    match c {
        DisplayCommand::SolidColor(_, rect) => rect,
    }
}

/// The background colour a box paints, if any: the first value present among
/// its `background` and `background-color` properties, when that value is a
/// colour. Anonymous boxes have no style and paint nothing.
pub open spec fn get_color_spec(b: LayoutBoxV) -> Option<Color> {
    match assoc(box_style(b.box_type), "background"@) {
        Some(v) => match v {
            ValueV::ColorValue(c) => Some(c),
            _ => None,
        },
        None => match assoc(box_style(b.box_type), "background-color"@) {
            Some(v) => match v {
                ValueV::ColorValue(c) => Some(c),
                _ => None,
            },
            None => None,
        },
    }
}

/// The commands of a box's subtree, in paint order: the box's own background
/// first, then each child's subtree in stored order.
pub open spec fn display_list_spec(b: LayoutBoxV) -> Seq<DisplayCommand>
    decreases b, 1int, 0int,
    via display_list_spec_decreases
{
    let own: Seq<DisplayCommand> = match get_color_spec(b) {
        Some(color) => seq![DisplayCommand::SolidColor(color, b.dimensions.spec_border_box())],
        None => Seq::empty(),
    };
    own + children_commands(b.children, 0)
}

/// The concatenated commands of the children from index `i` on.
pub open spec fn children_commands(children: Seq<LayoutBoxV>, i: int) -> Seq<DisplayCommand>
    decreases children, 0int, children.len() - i,
    via children_commands_decreases
{
    if i < 0 || i >= children.len() {
        Seq::empty()
    } else {
        display_list_spec(children[i]) + children_commands(children, i + 1)
    }
}

#[via_fn]
proof fn display_list_spec_decreases(b: LayoutBoxV) {
    assert(decreases_to!(b => b.children));
}

#[via_fn]
proof fn children_commands_decreases(children: Seq<LayoutBoxV>, i: int) {
    if 0 <= i < children.len() {
        assert(decreases_to!(children => children[i]));
    }
}

/// The background colour of a property map, if any.
fn background_color(style: &PropertyMap) -> (r: Option<Color>)
    ensures
        r == (match assoc(style@, "background"@) {
            Some(v) => match v {
                ValueV::ColorValue(c) => Some(c),
                _ => None,
            },
            None => match assoc(style@, "background-color"@) {
                Some(v) => match v {
                    ValueV::ColorValue(c) => Some(c),
                    _ => None,
                },
                None => None,
            },
        }),
{
    match style.get("background") {
        Some(v) => match v {
            Value::ColorValue(c) => Some(*c),
            _ => None,
        },
        None => match style.get("background-color") {
            Some(v) => match v {
                Value::ColorValue(c) => Some(*c),
                _ => None,
            },
            None => None,
        },
    }
}

/// The background colour a box paints, if any.
pub fn get_color(b: &LayoutBox) -> (r: Option<Color>)
    ensures
        r == get_color_spec(b@),
{
    match &b.box_type {
        BoxType::BlockNode(m) => background_color(m),
        BoxType::InlineNode(m) => background_color(m),
        BoxType::AnonymousBlock => {
            proof {
                assert(assoc(box_style(b@.box_type), "background"@) is None);
                assert(assoc(box_style(b@.box_type), "background-color"@) is None);
            }
            None
        },
    }
}

/// Append the commands of a box's subtree, in paint order.
#[verifier::loop_isolation(false)]
fn render_layout_box(list: &mut Vec<DisplayCommand>, b: &LayoutBox)
    ensures
        final(list)@ == old(list)@ + display_list_spec(b@),
    decreases *b,
{
    match get_color(b) {
        Some(color) => {
            list.push(DisplayCommand::SolidColor(color, b.dimensions.border_box()));
        },
        None => {},
    }
    let ghost bv = b@;
    let ghost base = list@;
    proof {
        assert(base =~= old(list)@ + (match get_color_spec(bv) {
            Some(color) => seq![
                DisplayCommand::SolidColor(color, bv.dimensions.spec_border_box()),
            ],
            None => Seq::<DisplayCommand>::empty(),
        }));
    }
    let mut i: usize = 0;
    while i < b.children.len()
        invariant
            i <= b.children@.len(),
            list@ + children_commands(bv.children, i as int) == base + children_commands(
                bv.children,
                0,
            ),
        decreases b.children@.len() - i,
    {
        proof {
            assert(decreases_to!(*b => b.children));
            assert(decreases_to!(b.children => b.children@));
            assert(decreases_to!(b.children@ => b.children@[i as int]));
            assert(bv.children[i as int] == b.children@[i as int]@);
        }
        let ghost before = list@;
        render_layout_box(list, &b.children[i]);
        proof {
            assert(before + (display_list_spec(bv.children[i as int]) + children_commands(
                bv.children,
                i as int + 1,
            )) =~= list@ + children_commands(bv.children, i as int + 1));
        }
        i = i + 1;
    }
    proof {
        assert(children_commands(bv.children, i as int) =~= Seq::<DisplayCommand>::empty());
        assert(list@ + children_commands(bv.children, i as int) =~= list@);
        assert(list@ =~= old(list)@ + display_list_spec(bv));
    }
}

/// Walk the laid-out tree into an ordered display list: a box's own
/// background command precedes all of its children's commands.
pub fn build_display_list(layout_root: &LayoutBox) -> (r: Vec<DisplayCommand>)
    ensures
        r@ == display_list_spec(layout_root@),
{
    let mut list: Vec<DisplayCommand> = Vec::new();
    render_layout_box(&mut list, layout_root);
    proof {
        assert(Seq::<DisplayCommand>::empty() + display_list_spec(layout_root@)
            =~= display_list_spec(layout_root@));
    }
    list
}

/// Somewhere in a child's commands: the commands of child `i` appear intact
/// inside the concatenation of the children's commands, at some offset.
proof fn lemma_children_commands_contains(children: Seq<LayoutBoxV>, k: int, i: int)
    requires
        0 <= k <= i < children.len(),
    ensures
        exists|off: int|
            #![trigger children_commands(children, k).subrange(off, off + display_list_spec(children[i]).len())]
            0 <= off && off + display_list_spec(children[i]).len() <= children_commands(
                children,
                k,
            ).len() && children_commands(children, k).subrange(
                off,
                off + display_list_spec(children[i]).len(),
            ) == display_list_spec(children[i]),
    decreases i - k,
{
    let li = display_list_spec(children[i]).len() as int;
    if k == i {
        let w = 0int;
        assert(children_commands(children, k).subrange(
            w,
            w + display_list_spec(children[i]).len(),
        ) =~= display_list_spec(children[i]));
    } else {
        lemma_children_commands_contains(children, k + 1, i);
        let off = choose|off: int|
            #![trigger children_commands(children, k + 1).subrange(off, off + li)]
            0 <= off && off + li <= children_commands(children, k + 1).len()
                && children_commands(children, k + 1).subrange(off, off + li)
                == display_list_spec(children[i]);
        let shift = display_list_spec(children[k]).len() as int;
        let w = shift + off;
        assert(children_commands(children, k).subrange(
            w,
            w + display_list_spec(children[i]).len(),
        ) =~= children_commands(children, k + 1).subrange(off, off + li));
    }
}

/// Paint order: when a box paints a background, its own command stands at the
/// head of its display list, and the commands of each child's subtree appear
/// intact strictly after it.
pub proof fn lemma_paint_order(b: LayoutBoxV, i: int)
    requires
        get_color_spec(b) is Some,
        0 <= i < b.children.len(),
    ensures
        display_list_spec(b).len() >= 1,
        display_list_spec(b)[0] == DisplayCommand::SolidColor(
            get_color_spec(b)->0,
            b.dimensions.spec_border_box(),
        ),
        exists|off: int|
            #![trigger display_list_spec(b).subrange(off, off + display_list_spec(b.children[i]).len())]
            1 <= off && off + display_list_spec(b.children[i]).len() <= display_list_spec(
                b,
            ).len() && display_list_spec(b).subrange(
                off,
                off + display_list_spec(b.children[i]).len(),
            ) == display_list_spec(b.children[i]),
{
    let li = display_list_spec(b.children[i]).len() as int;
    lemma_children_commands_contains(b.children, 0, i);
    let off = choose|off: int|
        #![trigger children_commands(b.children, 0).subrange(off, off + li)]
        0 <= off && off + li <= children_commands(b.children, 0).len() && children_commands(
            b.children,
            0,
        ).subrange(off, off + li) == display_list_spec(b.children[i]);
    let w = 1 + off;
    assert(display_list_spec(b).subrange(
        w,
        w + display_list_spec(b.children[i]).len(),
    ) =~= children_commands(b.children, 0).subrange(off, off + li));
}

} // verus!
