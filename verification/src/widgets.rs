use vstd::prelude::*;

verus! {

/// What a row is built from: a label and its children, `D` being the type
/// of a child element.
pub struct RowDescriptor<D> {
    pub label: Option<String>,
    pub vec: Vec<D>,
}

impl<D> Default for RowDescriptor<D> {
    /// A row without label and without children.
    fn default() -> (d: Self)
        ensures
            d.label is None,
            d.vec@.len() == 0,
    {
        RowDescriptor { label: None, vec: Vec::new() }
    }
}

/// Child elements laid out side by side.
pub struct Row<D> {
    label: Option<String>,
    children: Vec<D>,
}

impl<D> Row<D> {
    pub closed spec fn spec_label(&self) -> Option<String> {
        self.label
    }

    /// The children, in the order they are laid out.
    pub closed spec fn children(&self) -> Seq<D> {
        self.children@
    }

    pub fn new(disc: RowDescriptor<D>) -> (r: Box<Self>)
        ensures
            r.spec_label() == disc.label,
            r.children() == disc.vec@,
    {
        Box::new(Row { label: disc.label, children: disc.vec })
    }

    /// Add a child after the others.
    pub fn push(&mut self, child: D)
        ensures
            final(self).spec_label() == old(self).spec_label(),
            final(self).children() == old(self).children().push(child),
    {
        self.children.push(child);
    }
}

/// What a container is built from: a label, the style `S` of the container
/// itself and the layout `L` of its children.
pub struct ContainerDescriptor<S, L> {
    pub label: Option<String>,
    pub style: S,
    pub layout: L,
}

/// A styled box that lays out children.
pub struct Container<S, L> {
    label: Option<String>,
    style: S,
    layout: L,
}

impl<S, L> Container<S, L> {
    pub closed spec fn spec_label(&self) -> Option<String> {
        self.label
    }

    pub closed spec fn spec_style(&self) -> S {
        self.style
    }

    pub closed spec fn spec_layout(&self) -> L {
        self.layout
    }

    pub fn new(disc: ContainerDescriptor<S, L>) -> (c: Box<Self>)
        ensures
            c.spec_label() == disc.label,
            c.spec_style() == disc.style,
            c.spec_layout() == disc.layout,
    {
        Box::new(Container { label: disc.label, style: disc.style, layout: disc.layout })
    }
}

/// What a drag field is built from: a label, a width and a height of type
/// `Z`, and the element `D` that can be dragged.
pub struct DragFieldDescriptor<Z, D> {
    pub label: Option<String>,
    pub size: [Z; 2],
    pub item: D,
}

/// An area in which an element can be dragged.
pub struct DragField<Z, D> {
    label: Option<String>,
    size: [Z; 2],
    item: D,
}

impl<Z, D> DragField<Z, D> {
    pub closed spec fn spec_label(&self) -> Option<String> {
        self.label
    }

    pub closed spec fn spec_size(&self) -> [Z; 2] {
        self.size
    }

    pub closed spec fn spec_item(&self) -> D {
        self.item
    }

    pub fn new(disc: DragFieldDescriptor<Z, D>) -> (f: Box<Self>)
        ensures
            f.spec_label() == disc.label,
            f.spec_size() == disc.size,
            f.spec_item() == disc.item,
    {
        Box::new(DragField { label: disc.label, size: disc.size, item: disc.item })
    }
}

} // verus!
