//! The document tree and its mathematical model.

use vstd::prelude::*;
use crate::assoc::{
    assoc_map, has_key, key_index, lemma_entry_at, lemma_push_fresh, lemma_replace_at, position,
    unique_keys,
};

verus! {

/// What a block stands for: attributes, trimmed text, and for each child tag
/// the children of that tag in document order.
pub struct BlockView {
    pub attributes: Map<Seq<char>, Seq<char>>,
    pub raw_content: Seq<char>,
    pub sub_blocks: Map<Seq<char>, Seq<BlockView>>,
}

/// What a document stands for: its version and its top-level fields.
pub struct DocumentView {
    pub version: Seq<char>,
    pub fields: Map<Seq<char>, BlockView>,
}

/// One element of the markup: its attributes, its own text and its children.
///
/// `attributes` and `sub_blocks` are association lists in which no key occurs
/// twice; `sub_blocks` keeps, for each child tag, every child of that tag in
/// document order.
#[derive(Debug)]
pub struct Block {
    pub attributes: Vec<(String, String)>,
    pub raw_content: String,
    pub sub_blocks: Vec<(String, Vec<Block>)>,
}

/// A parsed document: the format version and the top-level fields, one block
/// per field name.
#[derive(Debug)]
pub struct UPFData {
    pub version: String,
    pub fields: Vec<(String, Block)>,
}

/// The views of a run of sibling blocks, in order.
pub open spec fn blocks_view(blocks: Seq<Block>) -> Seq<BlockView>
    decreases blocks,
{
    Seq::new(
        blocks.len(),
        |j: int|
            if 0 <= j < blocks.len() {
                blocks[j].view()
            } else {
                arbitrary()
            },
    )
}

/// Every block of the run is well formed.
pub open spec fn blocks_well_formed(blocks: Seq<Block>) -> bool
    decreases blocks,
{
    forall|j: int| 0 <= j < blocks.len() ==> (#[trigger] blocks[j]).well_formed()
}

/// The block that an element with these attributes is when it opens.
pub open spec fn fresh_block(attributes: Map<Seq<char>, Seq<char>>) -> BlockView {
    BlockView { attributes, raw_content: Seq::empty(), sub_blocks: Map::empty() }
}

/// The children that `parent` holds under `tag`: none where the tag is new.
pub open spec fn children_of(parent: BlockView, tag: Seq<char>) -> Seq<BlockView> {
    if parent.sub_blocks.contains_key(tag) {
        parent.sub_blocks[tag]
    } else {
        Seq::empty()
    }
}

/// `parent` after `child` closed under it with tag `tag`: the child comes
/// last among the children of that tag.
pub open spec fn attach_spec(parent: BlockView, tag: Seq<char>, child: BlockView) -> BlockView {
    BlockView {
        sub_blocks: parent.sub_blocks.insert(tag, children_of(parent, tag).push(child)),
        ..parent
    }
}

impl Block {
    pub open spec fn view(&self) -> BlockView
        decreases self,
    {
        BlockView {
            attributes: assoc_map(self.attributes@).map_values(|v: String| v@),
            raw_content: self.raw_content@,
            sub_blocks: Map::new(
                |k: Seq<char>| has_key(self.sub_blocks@, k),
                |k: Seq<char>|
                    if has_key(self.sub_blocks@, k) {
                        blocks_view(self.sub_blocks@[key_index(self.sub_blocks@, k)].1@)
                    } else {
                        arbitrary()
                    },
            ),
        }
    }

    /// No attribute name and no child tag is stored twice, here and below.
    pub open spec fn well_formed(&self) -> bool
        decreases self,
    {
        &&& unique_keys(self.attributes@)
        &&& unique_keys(self.sub_blocks@)
        &&& forall|i: int|
            0 <= i < self.sub_blocks@.len() ==> blocks_well_formed(
                (#[trigger] self.sub_blocks@[i]).1@,
            )
    }

    /// The children map is the association list read through `blocks_view`.
    pub proof fn lemma_sub_blocks_view(&self)
        ensures
            self@.sub_blocks == assoc_map(self.sub_blocks@).map_values(
                |g: Vec<Block>| blocks_view(g@),
            ),
    {
    }

    /// A block with the given attributes, no text and no children.
    pub fn new(attributes: Vec<(String, String)>) -> (r: Block)
        requires
            unique_keys(attributes@),
        ensures
            r.well_formed(),
            r@ == fresh_block(assoc_map(attributes@).map_values(|v: String| v@)),
            r.attributes == attributes,
    {
        let r = Block { attributes, raw_content: String::new(), sub_blocks: Vec::new() };
        proof {
            assert(r@.sub_blocks =~= Map::empty());
        }
        r
    }

    /// Takes `child`, which closed under this block with tag `tag`, as the
    /// last child of that tag.
    pub fn attach(&mut self, tag: String, child: Block)
        requires
            old(self).well_formed(),
            child.well_formed(),
        ensures
            final(self).well_formed(),
            final(self)@ == attach_spec(old(self)@, tag@, child@),
    {
        proof {
            self.lemma_sub_blocks_view();
        }
        let ghost before = self.sub_blocks@;
        match position(&self.sub_blocks, &tag) {
            Some(i) => {
                let ghost group = self.sub_blocks@[i as int];
                proof {
                    lemma_entry_at(before, i as int);
                }
                self.sub_blocks[i].1.push(child);
                proof {
                    let after = self.sub_blocks@;
                    lemma_replace_at(before, i as int, after[i as int].0, after[i as int].1);
                    assert(blocks_view(after[i as int].1@) =~= blocks_view(group.1@).push(child@));
                }
            },
            None => {
                let mut group: Vec<Block> = Vec::new();
                group.push(child);
                proof {
                    lemma_push_fresh(before, tag, group);
                    assert(blocks_view(group@) =~= Seq::<BlockView>::empty().push(child@));
                }
                self.sub_blocks.push((tag, group));
            },
        }
        proof {
            self.lemma_sub_blocks_view();
            assert(self@.sub_blocks =~= attach_spec(old(self)@, tag@, child@).sub_blocks);
        }
    }

    /// The value of the attribute `name`, if the element carried it.
    pub fn attribute(&self, name: &str) -> (r: Option<&String>)
        requires
            self.well_formed(),
        ensures
            match r {
                Some(v) => self@.attributes.contains_key(name@) && self@.attributes[name@] == v@,
                None => !self@.attributes.contains_key(name@),
            },
    {
        let key = name.to_owned();
        match position(&self.attributes, &key) {
            Some(i) => {
                proof {
                    lemma_entry_at(self.attributes@, i as int);
                }
                Some(&self.attributes[i].1)
            },
            None => None,
        }
    }

    /// The children with tag `name`, in document order, if there are any.
    pub fn children(&self, name: &str) -> (r: Option<&Vec<Block>>)
        requires
            self.well_formed(),
        ensures
            match r {
                Some(v) => self@.sub_blocks.contains_key(name@) && self@.sub_blocks[name@]
                    == blocks_view(v@) && blocks_well_formed(v@),
                None => !self@.sub_blocks.contains_key(name@),
            },
    {
        let key = name.to_owned();
        match position(&self.sub_blocks, &key) {
            Some(i) => {
                proof {
                    lemma_entry_at(self.sub_blocks@, i as int);
                }
                Some(&self.sub_blocks[i].1)
            },
            None => None,
        }
    }
}

impl UPFData {
    pub open spec fn view(&self) -> DocumentView {
        DocumentView {
            version: self.version@,
            fields: assoc_map(self.fields@).map_values(|b: Block| b@),
        }
    }

    /// No field name is stored twice, and every field is well formed.
    pub open spec fn well_formed(&self) -> bool {
        &&& unique_keys(self.fields@)
        &&& forall|i: int| 0 <= i < self.fields@.len() ==> (#[trigger] self.fields@[i]).1.well_formed()
    }

    /// The top-level field `name`, if the document has it.
    pub fn field(&self, name: &str) -> (r: Option<&Block>)
        requires
            self.well_formed(),
        ensures
            match r {
                Some(b) => self@.fields.contains_key(name@) && self@.fields[name@] == b@
                    && b.well_formed(),
                None => !self@.fields.contains_key(name@),
            },
    {
        let key = name.to_owned();
        match position(&self.fields, &key) {
            Some(i) => {
                proof {
                    lemma_entry_at(self.fields@, i as int);
                }
                Some(&self.fields[i].1)
            },
            None => None,
        }
    }
}

impl Default for UPFData {
    /// The empty document: no version, no fields.
    fn default() -> (r: UPFData)
        ensures
            r.well_formed(),
            r@ == (DocumentView { version: Seq::empty(), fields: Map::empty() }),
    {
        let r = UPFData { version: String::new(), fields: Vec::new() };
        proof {
            assert(r@.fields =~= Map::empty());
        }
        r
    }
}

} // verus!
