//! The document model: a window holds tabs, a tab holds binding groups, and a
//! group holds the individual key bindings.  Each type has a mathematical view
//! over sequences of characters, which the parser's contracts are stated over.

use vstd::prelude::*;

verus! {

/// One keys-to-action entry.  Both fields are opaque text to the parser.
#[derive(Debug, Clone, PartialEq)]
pub struct Binding {
    pub keys: String,
    pub action: String,
}

/// A named cluster of related bindings within a tab.
#[derive(Debug, PartialEq)]
pub struct BindingGroup {
    pub bindings: Vec<Binding>,
    pub title: String,
}

/// A named page of binding groups; the unit of navigation.
#[derive(Debug, PartialEq)]
pub struct Tab {
    pub groups: Vec<BindingGroup>,
    pub title: String,
}

/// The whole parsed document; root of the hierarchy.
#[derive(Debug, PartialEq)]
pub struct Window {
    pub tabs: Vec<Tab>,
    pub title: String,
}

/// Mathematical view of a [`Binding`].
#[verifier::ext_equal]
pub ghost struct BindingView {
    pub keys: Seq<char>,
    pub action: Seq<char>,
}

/// Mathematical view of a [`BindingGroup`].
#[verifier::ext_equal]
pub ghost struct GroupView {
    pub bindings: Seq<BindingView>,
    pub title: Seq<char>,
}

/// Mathematical view of a [`Tab`].
#[verifier::ext_equal]
pub ghost struct TabView {
    pub groups: Seq<GroupView>,
    pub title: Seq<char>,
}

/// Mathematical view of a [`Window`].
#[verifier::ext_equal]
pub ghost struct WindowView {
    pub tabs: Seq<TabView>,
    pub title: Seq<char>,
}

impl View for Binding {
    type V = BindingView;

    open spec fn view(&self) -> BindingView {
        BindingView { keys: self.keys@, action: self.action@ }
    }
}

impl View for BindingGroup {
    type V = GroupView;

    open spec fn view(&self) -> GroupView {
        GroupView {
            bindings: self.bindings@.map_values(|b: Binding| b@),
            title: self.title@,
        }
    }
}

impl View for Tab {
    type V = TabView;

    open spec fn view(&self) -> TabView {
        TabView {
            groups: self.groups@.map_values(|g: BindingGroup| g@),
            title: self.title@,
        }
    }
}

impl View for Window {
    type V = WindowView;

    open spec fn view(&self) -> WindowView {
        WindowView {
            tabs: self.tabs@.map_values(|t: Tab| t@),
            title: self.title@,
        }
    }
}

} // verus!
