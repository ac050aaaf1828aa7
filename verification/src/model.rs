use vstd::prelude::*;

verus! {

/// Classification of a sample: a rhythmic loop carrying an inferred
/// tempo, or a single one-shot sound. Values of different variants are
/// never equal, even when a loop's tempo is 0.
#[derive(Debug, Clone, Copy, PartialEq, Eq, Structural, PartialOrd, Ord, Hash)]
pub enum SampleType {
    Loop(i32),
    OneShot,
}

/// One audio file: its path (the unique identifier), a display name,
/// and its classification.
#[derive(Debug, PartialEq, Eq, PartialOrd, Ord)]
pub struct Sample {
    pub path: String,
    pub name: String,
    pub sampletype: SampleType,
}

impl Clone for Sample {
    fn clone(&self) -> (r: Self)
        ensures
            r == *self,
    {
        Sample {
            path: self.path.clone(),
            name: self.name.clone(),
            sampletype: self.sampletype,
        }
    }
}

/// Metadata about a sample collection. `num_samples` is a snapshot
/// taken when the pack is assembled, not a live counter.
#[derive(Debug)]
pub struct PackInfo {
    pub description: String,
    pub name: String,
    pub img: Option<String>,
    pub num_samples: Option<u32>,
}

impl Clone for PackInfo {
    fn clone(&self) -> (r: Self)
        ensures
            r == *self,
    {
        let img = match &self.img {
            Some(s) => Some(s.clone()),
            None => None,
        };
        PackInfo {
            description: self.description.clone(),
            name: self.name.clone(),
            img,
            num_samples: self.num_samples,
        }
    }
}

/// A named collection of samples with shared metadata.
#[derive(Debug)]
pub struct Pack {
    pub samples: Vec<Sample>,
    pub meta: PackInfo,
}

/// The root aggregate: an ordered sequence of packs and a library name.
#[derive(Debug)]
pub struct SampleLibrary {
    pub packs: Vec<Pack>,
    pub name: String,
}

/// A search query: free text, optional variant filter, optional tempo
/// bounds, optional pack filter, optional result limit.
#[derive(Debug, Clone)]
pub struct SearchParams {
    pub query: String,
    pub sample_type: Option<SampleType>,
    pub max_tempo: Option<u32>,
    pub min_tempo: Option<u32>,
    pub pack_id: Option<String>,
    pub max_results: Option<i32>,
}

/// Ranked search output, best first.
#[derive(Debug, Clone)]
pub struct SearchResult {
    pub samples: Vec<Sample>,
}

/// One `PackInfo` copy per pack, in the library's pack order.
pub fn get_packs_metadata(lib: &SampleLibrary) -> (out: Vec<PackInfo>)
    ensures
        out@.len() == lib.packs@.len(),
        forall|i: int| 0 <= i < out@.len() ==> out@[i] == lib.packs@[i].meta,
{
    let mut out: Vec<PackInfo> = Vec::new();
    let mut i: usize = 0;
    while i < lib.packs.len()
        invariant
            i <= lib.packs@.len(),
            out@.len() == i,
            forall|j: int| 0 <= j < i ==> out@[j] == lib.packs@[j].meta,
        decreases lib.packs@.len() - i,
    {
        out.push(lib.packs[i].meta.clone());
        i = i + 1;
    }
    out
}

} // verus!
