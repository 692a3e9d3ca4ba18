use vstd::prelude::*;

use crate::ids::PluginId;
use crate::node_controller::GraphNode;
use crate::plugin::Plugin;

verus! {

/// Whether two strings hold the same characters.
fn same_text(a: &str, b: &str) -> (r: bool)
    ensures
        r == (a@ == b@),
{
    let a = a.to_owned();
    let b = b.to_owned();
    a == b
}

/// A set of plugins, each found by its id and by its name.
pub struct PluginManager<V, P: Plugin<V>> {
    plugins: Vec<P>,
    values: core::marker::PhantomData<V>,
}

/// The position of the plugin with id `id`.
pub open spec fn plugin_with_id<V, P: Plugin<V>>(plugins: Seq<P>, id: PluginId, i: int) -> bool {
    0 <= i < plugins.len() && plugins[i].spec_plugin_id() == id
}

/// The position of the plugin named `name`.
pub open spec fn plugin_with_name<V, P: Plugin<V>>(plugins: Seq<P>, name: Seq<char>, i: int) -> bool {
    0 <= i < plugins.len() && plugins[i].spec_name() == name
}

impl<V, P: Plugin<V>> PluginManager<V, P> {
    /// The registered plugins, in the order of registration.
    pub closed spec fn plugins(&self) -> Seq<P> {
        self.plugins@
    }

    /// No two plugins share an id or a name.
    pub open spec fn wf(&self) -> bool {
        &&& forall|i: int, j: int|
            0 <= i < j < self.plugins().len() ==> self.plugins()[i].spec_plugin_id()
                != self.plugins()[j].spec_plugin_id()
        &&& forall|i: int, j: int|
            0 <= i < j < self.plugins().len() ==> self.plugins()[i].spec_name()
                != self.plugins()[j].spec_name()
    }

    pub open spec fn has_id(&self, id: PluginId) -> bool {
        exists|i: int| plugin_with_id::<V, P>(self.plugins(), id, i)
    }

    pub open spec fn has_name(&self, name: Seq<char>) -> bool {
        exists|i: int| plugin_with_name::<V, P>(self.plugins(), name, i)
    }

    pub fn new() -> (m: Self)
        ensures
            m.wf(),
            m.plugins() == Seq::<P>::empty(),
    {
        PluginManager { plugins: Vec::new(), values: core::marker::PhantomData }
    }

    fn find_id(&self, id: PluginId) -> (r: Option<usize>)
        ensures
            match r {
                Some(i) => plugin_with_id::<V, P>(self.plugins(), id, i as int),
                None => !self.has_id(id),
            },
    {
        let mut i: usize = 0;
        while i < self.plugins.len()
            invariant
                i <= self.plugins@.len(),
                forall|j: int| 0 <= j < i ==> !plugin_with_id::<V, P>(self.plugins(), id, j),
            decreases self.plugins@.len() - i,
        {
            if self.plugins[i].plugin_id() == id {
                return Some(i);
            }
            i = i + 1;
        }
        None
    }

    fn find_name(&self, name: &str) -> (r: Option<usize>)
        ensures
            match r {
                Some(i) => plugin_with_name::<V, P>(self.plugins(), name@, i as int),
                None => !self.has_name(name@),
            },
    {
        let mut i: usize = 0;
        while i < self.plugins.len()
            invariant
                i <= self.plugins@.len(),
                forall|j: int| 0 <= j < i ==> !plugin_with_name::<V, P>(self.plugins(), name@, j),
            decreases self.plugins@.len() - i,
        {
            if same_text(self.plugins[i].name(), name) {
                return Some(i);
            }
            i = i + 1;
        }
        None
    }

    /// Register a plugin; one whose id or name is taken already is handed
    /// back.
    pub fn register_plugin(&mut self, plugin: P) -> (r: Result<(), P>)
        requires
            old(self).wf(),
        ensures
            final(self).wf(),
            r is Ok <==> !old(self).has_id(plugin.spec_plugin_id()) && !old(self).has_name(
                plugin.spec_name(),
            ),
            r is Ok ==> final(self).plugins() == old(self).plugins().push(plugin),
            r matches Err(p) ==> p == plugin && final(self).plugins() == old(self).plugins(),
    {
        let id = plugin.plugin_id();
        let found = self.find_id(id);
        if found.is_some() {
            return Err(plugin);
        }
        let name = plugin.name();
        if self.find_name(name).is_some() {
            return Err(plugin);
        }
        let ghost before = self.plugins@;
        assert(before == self.plugins());
        self.plugins.push(plugin);
        assert forall|i: int, j: int|
            0 <= i < j < self.plugins().len() implies self.plugins()[i].spec_plugin_id()
                != self.plugins()[j].spec_plugin_id() by {
            if j == before.len() {
                assert(!plugin_with_id::<V, P>(before, id, i));
            }
        }
        assert forall|i: int, j: int|
            0 <= i < j < self.plugins().len() implies self.plugins()[i].spec_name()
                != self.plugins()[j].spec_name() by {
            if j == before.len() {
                assert(!plugin_with_name::<V, P>(before, name@, i));
            }
        }
        Ok(())
    }

    /// The plugin with id `id`.
    pub fn get_plugin_by_id(&self, id: &PluginId) -> (r: Option<&P>)
        ensures
            r is None <==> !self.has_id(*id),
            r matches Some(p) ==> exists|i: int|
                plugin_with_id::<V, P>(self.plugins(), *id, i) && self.plugins()[i] == *p,
    {
        match self.find_id(*id) {
            Some(i) => Some(&self.plugins[i]),
            None => None,
        }
    }

    /// The plugin named `name`.
    pub fn get_plugin_by_name(&self, name: &str) -> (r: Option<&P>)
        ensures
            r is None <==> !self.has_name(name@),
            r matches Some(p) ==> exists|i: int|
                plugin_with_name::<V, P>(self.plugins(), name@, i) && self.plugins()[i] == *p,
    {
        match self.find_name(name) {
            Some(i) => Some(&self.plugins[i]),
            None => None,
        }
    }

    /// A new node built by the plugin with id `id`.
    pub fn generate_node_by_id(&self, id: &PluginId) -> (r: Option<GraphNode<V>>)
        ensures
            r is None <==> !self.has_id(*id),
            r matches Some(n) ==> exists|i: int|
                plugin_with_id::<V, P>(self.plugins(), *id, i) && self.plugins()[i].builds(n),
    {
        match self.get_plugin_by_id(id) {
            Some(plugin) => Some(plugin.build()),
            None => None,
        }
    }

    /// A new node built by the plugin named `name`.
    pub fn generate_node_by_name(&self, name: &str) -> (r: Option<GraphNode<V>>)
        ensures
            r is None <==> !self.has_name(name@),
            r matches Some(n) ==> exists|i: int|
                plugin_with_name::<V, P>(self.plugins(), name@, i) && self.plugins()[i].builds(n),
    {
        match self.get_plugin_by_name(name) {
            Some(plugin) => Some(plugin.build()),
            None => None,
        }
    }
}

/// In a well-formed manager an id is found at one position only.
pub proof fn law_id_found_once<V, P: Plugin<V>>(m: PluginManager<V, P>, id: PluginId, i: int, j: int)
    requires
        m.wf(),
        plugin_with_id::<V, P>(m.plugins(), id, i),
        plugin_with_id::<V, P>(m.plugins(), id, j),
    ensures
        i == j,
{
}

/// A plugin just registered is what its id finds.
pub proof fn law_registered_is_found<V, P: Plugin<V>>(before: Seq<P>, plugin: P, i: int)
    requires
        plugin_with_id::<V, P>(before.push(plugin), plugin.spec_plugin_id(), i),
        forall|j: int| 0 <= j < before.len() ==> before[j].spec_plugin_id() != plugin.spec_plugin_id(),
    ensures
        before.push(plugin)[i] == plugin,
{
}

} // verus!
