//! The vector record of the index.
//!
//! Coordinates are held by their IEEE-754 bit patterns, one `u64` each:
//! the library stores, copies and counts them, and leaves arithmetic on
//! them to the distance kernel of the caller.

use vstd::prelude::*;
use crate::error::VectorError;

verus! {

/// One copy of a vector of the index: the copy that lives at `level`.
#[derive(Debug, Clone, PartialEq, Eq)]
pub struct HVector {
    /// Identifier, shared by the copies of one vector at all levels.
    pub id: u128,
    /// The level of the index that this copy belongs to.
    pub level: usize,
    /// Soft-delete mark: the vector stays wired in but is not to be returned.
    pub is_deleted: bool,
    /// Bit patterns of the coordinates.
    pub data: Vec<u64>,
    /// The property map as the codec wrote it, if the vector has one.
    pub properties: Option<Vec<u8>>,
}

/// The mathematical value of an [`HVector`].
pub struct HVectorView {
    pub id: u128,
    pub level: usize,
    pub is_deleted: bool,
    pub data: Seq<u64>,
    pub properties: Option<Seq<u8>>,
}

impl HVectorView {
    /// The same vector, placed at `level`.
    pub open spec fn at_level(self, level: usize) -> HVectorView {
        HVectorView { level, ..self }
    }
}

impl View for HVector {
    type V = HVectorView;

    open spec fn view(&self) -> HVectorView {
        HVectorView {
            id: self.id,
            level: self.level,
            is_deleted: self.is_deleted,
            data: self.data@,
            properties: match self.properties {
                Some(bytes) => Some(bytes@),
                None => None,
            },
        }
    }
}

/// Tells whether a distance between vectors of the dimensions `from` and
/// `to` is defined: it is exactly when the two are equal.
pub fn check_lengths(from: usize, to: usize) -> (checked: Result<(), VectorError>)
    ensures
        checked is Ok <==> from == to,
        checked matches Err(error) ==> error == VectorError::InvalidVectorLength,
{
    if from == to {
        Ok(())
    } else {
        Err(VectorError::InvalidVectorLength)
    }
}

fn copy_bytes(bytes: &Vec<u8>) -> (copy: Vec<u8>)
    ensures
        copy@ == bytes@,
{
    let mut copy: Vec<u8> = Vec::new();
    let mut i: usize = 0;
    while i < bytes.len()
        invariant
            i <= bytes@.len(),
            copy@ == bytes@.subrange(0, i as int),
        decreases bytes@.len() - i,
    {
        copy.push(bytes[i]);
        i = i + 1;
    }
    proof {
        assert(bytes@.subrange(0, bytes@.len() as int) =~= bytes@);
    }
    copy
}

fn copy_words(words: &Vec<u64>) -> (copy: Vec<u64>)
    ensures
        copy@ == words@,
{
    let mut copy: Vec<u64> = Vec::new();
    let mut i: usize = 0;
    while i < words.len()
        invariant
            i <= words@.len(),
            copy@ == words@.subrange(0, i as int),
        decreases words@.len() - i,
    {
        copy.push(words[i]);
        i = i + 1;
    }
    proof {
        assert(words@.subrange(0, words@.len() as int) =~= words@);
    }
    copy
}

impl HVector {
    /// A live vector at level 0 without properties.
    pub fn new(id: u128, data: Vec<u64>) -> (vector: HVector)
        ensures
            vector@ == (HVectorView {
                id,
                level: 0,
                is_deleted: false,
                data: data@,
                properties: None,
            }),
    {
        HVector { id, level: 0, is_deleted: false, data, properties: None }
    }

    pub fn get_id(&self) -> (id: u128)
        ensures
            id == self@.id,
    {
        self.id
    }

    pub fn get_level(&self) -> (level: usize)
        ensures
            level == self@.level,
    {
        self.level
    }

    /// The dimension: the number of coordinates.
    pub fn len(&self) -> (dimension: usize)
        ensures
            dimension == self@.data.len(),
    {
        self.data.len()
    }

    /// A copy of this vector that lives at `level`.
    pub fn at_level(&self, level: usize) -> (copy: HVector)
        ensures
            copy@ == self@.at_level(level),
    {
        let properties = match &self.properties {
            Some(bytes) => Some(copy_bytes(bytes)),
            None => None,
        };
        HVector {
            id: self.id,
            level,
            is_deleted: self.is_deleted,
            data: copy_words(&self.data),
            properties,
        }
    }

    /// Tells whether the distance between the two vectors is defined:
    /// it is exactly when they have the same dimension.
    pub fn check_dimensions(&self, other: &HVector) -> (checked: Result<(), VectorError>)
        ensures
            checked is Ok <==> self@.data.len() == other@.data.len(),
            checked matches Err(error) ==> error == VectorError::InvalidVectorLength,
    {
        check_lengths(self.data.len(), other.data.len())
    }
}

} // verus!
