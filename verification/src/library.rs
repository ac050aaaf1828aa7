use vstd::prelude::*;
use crate::classify::{get_sample, spec_detect_type};
use crate::model::{Pack, PackInfo, Sample};

verus! {

/// Builds a pack from an already enumerated list of file paths: each
/// path is classified and becomes one sample, in input order, and the
/// metadata records the final count as a snapshot. The path list must
/// fit the `u32` count field.
pub fn assemble_pack(paths: &Vec<String>, name: &str, description: &str) -> (p: Pack)
    requires
        paths@.len() <= u32::MAX,
    ensures
        p.samples@.len() == paths@.len(),
        forall|i: int|
            0 <= i < paths@.len() ==> {
                &&& (#[trigger] p.samples@[i]).path@ == paths@[i]@
                &&& p.samples@[i].name@ == paths@[i]@
                &&& p.samples@[i].sampletype == spec_detect_type(paths@[i]@)
            },
        p.meta.name@ == name@,
        p.meta.description@ == description@,
        p.meta.img is None,
        p.meta.num_samples == Some(paths@.len() as u32),
{
    let mut samples: Vec<Sample> = Vec::new();
    let mut i: usize = 0;
    while i < paths.len()
        invariant
            i <= paths@.len(),
            samples@.len() == i,
            forall|j: int|
                0 <= j < i ==> {
                    &&& (#[trigger] samples@[j]).path@ == paths@[j]@
                    &&& samples@[j].name@ == paths@[j]@
                    &&& samples@[j].sampletype == spec_detect_type(paths@[j]@)
                },
        decreases paths@.len() - i,
    {
        samples.push(get_sample(paths[i].as_str()));
        i = i + 1;
    }
    let count: u32 = samples.len() as u32;
    Pack {
        samples,
        meta: PackInfo {
            description: description.to_owned(),
            name: name.to_owned(),
            img: None,
            num_samples: Some(count),
        },
    }
}

} // verus!
