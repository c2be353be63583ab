//! The node kinds that the editor offers.

use vstd::prelude::*;
use crate::node_data::NFNodeData;

verus! {

/// The kinds on offer: the built-in ones, then those of the extensions.
#[derive(Debug)]
pub struct NodeTemplateIter {
    additional_kinds: Vec<NFNodeData>,
}

/// Whether `kinds` starts with the built-in kinds on offer, each without
/// configuration. The source and the local machine are not on offer: every
/// graph has exactly one of each from the start.
pub open spec fn starts_with_core_kinds(kinds: Seq<NFNodeData>) -> bool {
    &&& kinds.len() >= 12
    &&& kinds[0] matches NFNodeData::InterfaceFilter(v) && v@.len() == 0
    &&& kinds[1] matches NFNodeData::FileIpList(file) && file is None
    &&& kinds[2] matches NFNodeData::SourceAddressFilter(v) && v@.len() == 0
    &&& kinds[3] matches NFNodeData::DestinationAddressFilter(v) && v@.len() == 0
    &&& kinds[4] matches NFNodeData::SourcePortFilter(v) && v@.len() == 0
    &&& kinds[5] matches NFNodeData::DestinationPortFilter(v) && v@.len() == 0
    &&& kinds[6] matches NFNodeData::ProtocolFilter(v) && v@.len() == 0
    &&& kinds[7] is FamilySplitter
    &&& kinds[8] matches NFNodeData::SourceNAT(v) && v@.len() == 0
    &&& kinds[9] matches NFNodeData::DestinationNAT(v) && v@.len() == 0
    &&& kinds[10] is Drop
    &&& kinds[11] is Accept
}

impl NodeTemplateIter {
    pub fn new(additional_kinds: Vec<NFNodeData>) -> (kinds: Self)
        ensures
            kinds.additional() == additional_kinds@,
    {
        NodeTemplateIter { additional_kinds }
    }

    /// The kinds that were added to the built-in ones.
    pub closed spec fn additional(&self) -> Seq<NFNodeData> {
        self.additional_kinds@
    }

    /// Every kind on offer: the twelve built-in ones, then the added ones in
    /// their order.
    pub fn all_kinds(&self) -> (kinds: Vec<NFNodeData>)
        ensures
            starts_with_core_kinds(kinds@),
            kinds@.len() == 12 + self.additional().len(),
            forall|k: int|
                0 <= k < self.additional().len() ==> (#[trigger] kinds@[12 + k]).same(
                    &self.additional()[k],
                ),
    {
        let mut kinds: Vec<NFNodeData> = Vec::new();
        kinds.push(NFNodeData::InterfaceFilter(String::new()));
        kinds.push(NFNodeData::FileIpList(None));
        kinds.push(NFNodeData::SourceAddressFilter(String::new()));
        kinds.push(NFNodeData::DestinationAddressFilter(String::new()));
        kinds.push(NFNodeData::SourcePortFilter(String::new()));
        kinds.push(NFNodeData::DestinationPortFilter(String::new()));
        kinds.push(NFNodeData::ProtocolFilter(String::new()));
        kinds.push(NFNodeData::FamilySplitter);
        kinds.push(NFNodeData::SourceNAT(String::new()));
        kinds.push(NFNodeData::DestinationNAT(String::new()));
        kinds.push(NFNodeData::Drop);
        kinds.push(NFNodeData::Accept);
        let mut i: usize = 0;
        while i < self.additional_kinds.len()
            invariant
                i <= self.additional_kinds.len(),
                starts_with_core_kinds(kinds@),
                kinds@.len() == 12 + i,
                forall|k: int|
                    0 <= k < i ==> (#[trigger] kinds@[12 + k]).same(&self.additional_kinds@[k]),
            decreases self.additional_kinds.len() - i,
        {
            kinds.push(self.additional_kinds[i].clone());
            i += 1;
        }
        kinds
    }
}

impl Clone for NodeTemplateIter {
    fn clone(&self) -> (copy: Self)
        ensures
            copy.additional().len() == self.additional().len(),
            forall|k: int|
                0 <= k < self.additional().len() ==> (#[trigger] copy.additional()[k]).same(
                    &self.additional()[k],
                ),
    {
        let mut additional_kinds: Vec<NFNodeData> = Vec::new();
        let mut i: usize = 0;
        while i < self.additional_kinds.len()
            invariant
                i <= self.additional_kinds.len(),
                additional_kinds@.len() == i,
                forall|k: int|
                    0 <= k < i ==> (#[trigger] additional_kinds@[k]).same(&self.additional_kinds@[k]),
            decreases self.additional_kinds.len() - i,
        {
            additional_kinds.push(self.additional_kinds[i].clone());
            i += 1;
        }
        NodeTemplateIter { additional_kinds }
    }
}

} // verus!
