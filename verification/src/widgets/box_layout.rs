//! The vertical stack: the reference layout policy, and its description.

use vstd::prelude::*;

use crate::description::{descs_view, DescModel, Description};

verus! {

/// The closed set of layout policies a layout node can hold.
///
/// `VStack` places each child below the previous one by the previous
/// child's hinted height, at horizontal origin 0 and the child's own
/// hinted size; its own hint is (max child width, sum of child heights).
#[derive(Clone, Copy, PartialEq, Eq, Structural, Debug)]
pub enum LayoutPolicy {
    VStack,
}

/// The declarative description of a vertical stack of children. A stack
/// carries no identity, so it is rebuilt fresh on every pass; only its
/// identified widget children are reused.
pub struct Stack {
    pub children: Vec<Description>,
}

impl View for Stack {
    type V = Seq<DescModel>;

    open spec fn view(&self) -> Seq<DescModel> {
        descs_view(self.children@)
    }
}

impl Stack {
    /// An empty stack description.
    pub fn new() -> (d: Stack)
        ensures
            d@ == Seq::<DescModel>::empty(),
    {
        let d = Stack { children: Vec::new() };
        proof {
            assert(d@ =~= Seq::<DescModel>::empty());
        }
        d
    }

    /// Append one child description.
    pub fn append(self, desc: Description) -> (d: Stack)
        ensures
            d@ == self@.push(desc@),
    {
        let ghost pre_children = self.children@;
        let ghost dview = desc@;
        let mut children = self.children;
        children.push(desc);
        let d = Stack { children };
        proof {
            assert(d.children@.drop_last() =~= pre_children);
            assert(d@ =~= descs_view(pre_children).push(dview));
        }
        d
    }
}

} // verus!
