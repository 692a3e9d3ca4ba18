use vstd::prelude::*;

use crate::ids::PluginId;
use crate::node_controller::GraphNode;

verus! {

/// What a plugin offers: a name, an id, and nodes built on demand.
pub trait Plugin<V>: Sized {
    spec fn spec_name(&self) -> Seq<char>;

    spec fn spec_plugin_id(&self) -> PluginId;

    fn name(&self) -> (r: &'static str)
        ensures
            r@ == self.spec_name(),
    ;

    fn plugin_id(&self) -> (r: PluginId)
        ensures
            r == self.spec_plugin_id(),
    ;

    /// `node` is one that this plugin can build: a node of its kind.
    spec fn builds(&self, node: GraphNode<V>) -> bool;

    /// A new node of this plugin's kind.
    fn build(&self) -> (node: GraphNode<V>)
        ensures
            self.builds(node),
    ;
}

} // verus!
