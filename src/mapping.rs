//! Recording which output node was built from which input node.
use vstd::prelude::*;

verus! {

/// `output`, a node under `parent`, was built from `input`.
#[derive(Clone, Copy, PartialEq, Eq, Structural, Debug)]
pub struct MappingEntry {
    pub parent: usize,
    pub output: usize,
    pub input: usize,
}

/// The recorded correspondences, in the order they were recorded.
pub struct SyntaxMapping {
    pub entries: Vec<MappingEntry>,
}

impl View for SyntaxMapping {
    type V = Seq<MappingEntry>;

    open spec fn view(&self) -> Seq<MappingEntry> {
        self.entries@
    }
}

impl SyntaxMapping {
    pub fn new() -> (r: SyntaxMapping)
        ensures
            r@ == Seq::<MappingEntry>::empty(),
    {
        SyntaxMapping { entries: Vec::new() }
    }

    /// The input node that `output` was built from, by the latest entry for it.
    pub fn input_of(&self, output: usize) -> (r: Option<usize>)
        ensures
            match r {
                Some(i) => exists|k: int|
                    0 <= k < self@.len() && #[trigger] self@[k] == (MappingEntry {
                        parent: self@[k].parent,
                        output,
                        input: i,
                    }) && forall|l: int| k < l < self@.len() ==> self@[l].output != output,
                None => forall|k: int| 0 <= k < self@.len() ==> #[trigger] self@[k].output != output,
            },
    {
        let mut k: usize = self.entries.len();
        while k > 0
            invariant
                k <= self@.len(),
                forall|l: int| k <= l < self@.len() ==> #[trigger] self@[l].output != output,
            decreases k,
        {
            k = k - 1;
            if self.entries[k].output == output {
                assert(self@[k as int] == (MappingEntry {
                    parent: self@[k as int].parent,
                    output,
                    input: self.entries[k as int].input,
                }));
                return Some(self.entries[k].input);
            }
        }
        None
    }
}

/// Pairs of (input, output) for one built node, not yet recorded.
pub struct SyntaxMappingBuilder {
    pub parent: usize,
    pub node_map: Vec<(usize, usize)>,
}

/// The positional pairing of two sequences, as long as the shorter one.
pub open spec fn zip_pairs(a: Seq<usize>, b: Seq<usize>) -> Seq<(usize, usize)> {
    let n = if a.len() <= b.len() {
        a.len()
    } else {
        b.len()
    };
    Seq::new(n, |i: int| (a[i], b[i]))
}

/// The entries that a builder for `parent` with pairs `m` records.
pub open spec fn entries_of(parent: usize, m: Seq<(usize, usize)>) -> Seq<MappingEntry> {
    Seq::new(m.len(), |i: int| MappingEntry { parent, output: m[i].1, input: m[i].0 })
}

impl SyntaxMappingBuilder {
    pub fn new(parent: usize) -> (r: SyntaxMappingBuilder)
        ensures
            r.parent == parent,
            r.node_map@ == Seq::<(usize, usize)>::empty(),
    {
        SyntaxMappingBuilder { parent, node_map: Vec::new() }
    }

    /// Records that `output` was built from `input`.
    pub fn map_node(&mut self, input: usize, output: usize)
        ensures
            final(self).parent == old(self).parent,
            final(self).node_map@ == old(self).node_map@.push((input, output)),
    {
        self.node_map.push((input, output));
    }

    /// Pairs `inputs` with `outputs` by position, up to the shorter length.
    pub fn map_children(&mut self, inputs: &Vec<usize>, outputs: &Vec<usize>)
        ensures
            final(self).parent == old(self).parent,
            final(self).node_map@ == old(self).node_map@ + zip_pairs(inputs@, outputs@),
    {
        let n = if inputs.len() <= outputs.len() {
            inputs.len()
        } else {
            outputs.len()
        };
        let mut i: usize = 0;
        while i < n
            invariant
                i <= n,
                n <= inputs@.len(),
                n <= outputs@.len(),
                self.parent == old(self).parent,
                self.node_map@ == old(self).node_map@ + zip_pairs(inputs@, outputs@).take(
                    i as int,
                ),
            decreases n - i,
        {
            self.node_map.push((inputs[i], outputs[i]));
            i = i + 1;
            assert(self.node_map@ =~= old(self).node_map@ + zip_pairs(inputs@, outputs@).take(
                i as int,
            ));
        }
        assert(zip_pairs(inputs@, outputs@).take(n as int) =~= zip_pairs(inputs@, outputs@));
    }

    /// Adds this builder's pairs to `mapping`, in order.
    pub fn finish(self, mapping: &mut SyntaxMapping)
        ensures
            final(mapping)@ == old(mapping)@ + entries_of(self.parent, self.node_map@),
    {
        let mut i: usize = 0;
        while i < self.node_map.len()
            invariant
                i <= self.node_map@.len(),
                mapping@ == old(mapping)@ + entries_of(self.parent, self.node_map@).take(i as int),
            decreases self.node_map@.len() - i,
        {
            let (input, output) = self.node_map[i];
            mapping.entries.push(MappingEntry { parent: self.parent, output, input });
            i = i + 1;
            assert(mapping@ =~= old(mapping)@ + entries_of(self.parent, self.node_map@).take(
                i as int,
            ));
        }
        assert(entries_of(self.parent, self.node_map@).take(i as int) =~= entries_of(
            self.parent,
            self.node_map@,
        ));
    }
}

} // verus!
