//! The data model: destination-side hunks, the inclusive line ranges they
//! cover, and groups of ranges that share one destination file.

use vstd::prelude::*;
use vstd::string::StringExecFns;

verus! {

/// The destination side of one diff hunk: the file it applies to, its 1-based
/// starting line and the number of lines it covers.
pub struct Hunk {
    pub file: String,
    pub line: usize,
    pub count: usize,
}

/// The mathematical value of a `Hunk`.
#[verifier::ext_equal]
pub ghost struct HunkV {
    pub file: Seq<char>,
    pub line: nat,
    pub count: nat,
}

impl View for Hunk {
    type V = HunkV;

    open spec fn view(&self) -> HunkV {
        HunkV { file: self.file@, line: self.line as nat, count: self.count as nat }
    }
}

/// An inclusive line range of one file, as the external tool's line-range
/// selector expects it: `start` is the hunk's starting line and `end` is
/// `line + count`.
pub struct RangeDescriptor {
    pub file: String,
    pub start: usize,
    pub end: usize,
}

/// The mathematical value of a `RangeDescriptor`.
#[verifier::ext_equal]
pub ghost struct RangeDescriptorV {
    pub file: Seq<char>,
    pub start: nat,
    pub end: nat,
}

impl View for RangeDescriptor {
    type V = RangeDescriptorV;

    open spec fn view(&self) -> RangeDescriptorV {
        RangeDescriptorV { file: self.file@, start: self.start as nat, end: self.end as nat }
    }
}

/// The descriptor a hunk gives rise to: same file, `start = line`,
/// `end = line + count`.
pub open spec fn descr_of(h: HunkV) -> RangeDescriptorV {
    RangeDescriptorV { file: h.file, start: h.line, end: (h.line + h.count) as nat }
}

/// A non-empty run of descriptors that all name one destination file, flushed
/// to the formatter as a unit.
pub struct FileGroup {
    pub file: String,
    pub descriptors: Vec<RangeDescriptor>,
}

/// The mathematical value of a `FileGroup`.
#[verifier::ext_equal]
pub ghost struct FileGroupV {
    pub file: Seq<char>,
    pub descriptors: Seq<RangeDescriptorV>,
}

impl View for FileGroup {
    type V = FileGroupV;

    open spec fn view(&self) -> FileGroupV {
        FileGroupV {
            file: self.file@,
            descriptors: self.descriptors@.map(|i: int, d: RangeDescriptor| d@),
        }
    }
}

/// Build the range descriptor of one hunk.
pub fn descriptor_of(h: &Hunk) -> (d: RangeDescriptor)
    requires
        h@.line + h@.count <= usize::MAX,
    ensures
        d@ == descr_of(h@),
{
    RangeDescriptor { file: clone_string(&h.file), start: h.line, end: h.line + h.count }
}

/// Copy a `String`.
pub fn clone_string(s: &String) -> (r: String)
    ensures
        r@ == s@,
{
    let mut r = String::new();
    r.append(s.as_str());
    r
}

} // verus!
