//! The saved class schema that directs native value decoding: classes by
//! tag, their parent classes and their declared fields.
use vstd::prelude::*;

use crate::text::str_eq;

verus! {

/// A reference from a declaration to a class of the schema.
#[derive(Clone, Copy, Debug, PartialEq, Eq, Structural)]
pub struct Reference {
    pub offset: usize,
    pub tag: u16,
    pub introduces_definition: bool,
}

/// One declared field: its scalar `base`, its container `modifier`, and
/// what a reference or nested declaration adds.
#[derive(Debug)]
pub struct Field {
    pub offset: usize,
    pub name: String,
    pub descriptor_offset: usize,
    pub raw_descriptor: u32,
    pub base: u8,
    pub modifier: u8,
    pub uninterpreted_flags: u8,
    pub array_count: Option<u32>,
    pub references: Vec<Reference>,
    pub nested_descriptor: Option<Box<Field>>,
    pub end: usize,
}

/// One declared class.
#[derive(Debug)]
pub struct Class {
    pub tag: u16,
    pub name: String,
    pub offset: usize,
    pub parent_reference: Reference,
    pub version_like_word: u32,
    pub fields: Vec<Field>,
    pub opaque_16byte_entry_count: usize,
    pub opaque_entries_offset: usize,
    pub opaque_entries_sha256: String,
    pub end: usize,
}

/// A document's saved class schema.
#[derive(Debug)]
pub struct Registry {
    pub source_sha256: String,
    pub consumed_bytes: usize,
    pub reference_count: usize,
    pub terminator_offset: usize,
    pub classes: Vec<Class>,
}

/// `i` is the first class declared under `tag`.
pub open spec fn first_with_tag(classes: Seq<Class>, tag: u16, i: int) -> bool {
    &&& 0 <= i < classes.len()
    &&& classes[i].tag == tag
    &&& forall|k: int| 0 <= k < i ==> (#[trigger] classes[k]).tag != tag
}

/// `i` is the first class declared under `name`.
pub open spec fn first_with_name(classes: Seq<Class>, name: Seq<char>, i: int) -> bool {
    &&& 0 <= i < classes.len()
    &&& classes[i].name@ == name
    &&& forall|k: int| 0 <= k < i ==> (#[trigger] classes[k]).name@ != name
}

/// The position of the class a tag names: the first declared under it.
pub open spec fn class_index(reg: Registry, tag: u16) -> Option<int> {
    if exists|i: int| first_with_tag(reg.classes@, tag, i) {
        Some(choose|i: int| first_with_tag(reg.classes@, tag, i))
    } else {
        None
    }
}

/// The position of the class a name names: the first declared under it.
pub open spec fn named_index(reg: Registry, name: Seq<char>) -> Option<int> {
    if exists|i: int| first_with_name(reg.classes@, name, i) {
        Some(choose|i: int| first_with_name(reg.classes@, name, i))
    } else {
        None
    }
}

/// The first class under a tag is unique.
pub proof fn lemma_class_index(reg: Registry, tag: u16, i: int)
    requires
        first_with_tag(reg.classes@, tag, i),
    ensures
        class_index(reg, tag) == Some(i),
{
    let j = choose|j: int| first_with_tag(reg.classes@, tag, j);
    assert(first_with_tag(reg.classes@, tag, j));
    if j < i {
        assert(reg.classes@[j].tag != tag);
    } else if i < j {
        assert(reg.classes@[i].tag != tag);
    }
}

/// The first class under a name is unique.
pub proof fn lemma_named_index(reg: Registry, name: Seq<char>, i: int)
    requires
        first_with_name(reg.classes@, name, i),
    ensures
        named_index(reg, name) == Some(i),
{
    let j = choose|j: int| first_with_name(reg.classes@, name, j);
    assert(first_with_name(reg.classes@, name, j));
    if j < i {
        assert(reg.classes@[j].name@ != name);
    } else if i < j {
        assert(reg.classes@[i].name@ != name);
    }
}

impl Registry {
    /// The position of the class declared under `tag`.
    pub fn class_position(&self, tag: u16) -> (r: Option<usize>)
        ensures
            match r {
                Some(i) => class_index(*self, tag) == Some(i as int),
                None => class_index(*self, tag) is None,
            },
    {
        let mut i: usize = 0;
        while i < self.classes.len()
            invariant
                i <= self.classes@.len(),
                forall|k: int| 0 <= k < i ==> (#[trigger] self.classes@[k]).tag != tag,
            decreases self.classes@.len() - i,
        {
            if self.classes[i].tag == tag {
                proof {
                    lemma_class_index(*self, tag, i as int);
                }
                return Some(i);
            }
            i += 1;
        }
        None
    }

    /// The class declared under `tag`.
    pub fn class(&self, tag: u16) -> (r: Option<&Class>)
        ensures
            match class_index(*self, tag) {
                Some(i) => r == Some(&self.classes@[i]),
                None => r is None,
            },
    {
        match self.class_position(tag) {
            Some(i) => Some(&self.classes[i]),
            None => None,
        }
    }

    /// The position of the class declared under `name`.
    pub fn named_position(&self, name: &str) -> (r: Option<usize>)
        ensures
            match r {
                Some(i) => named_index(*self, name@) == Some(i as int),
                None => named_index(*self, name@) is None,
            },
    {
        let mut i: usize = 0;
        while i < self.classes.len()
            invariant
                i <= self.classes@.len(),
                forall|k: int| 0 <= k < i ==> (#[trigger] self.classes@[k]).name@ != name@,
            decreases self.classes@.len() - i,
        {
            if str_eq(self.classes[i].name.as_str(), name) {
                proof {
                    lemma_named_index(*self, name@, i as int);
                }
                return Some(i);
            }
            i += 1;
        }
        None
    }

    /// The class declared under `name`.
    pub fn named(&self, name: &str) -> (r: Option<&Class>)
        ensures
            match named_index(*self, name@) {
                Some(i) => r == Some(&self.classes@[i]),
                None => r is None,
            },
    {
        match self.named_position(name) {
            Some(i) => Some(&self.classes[i]),
            None => None,
        }
    }
}

} // verus!
