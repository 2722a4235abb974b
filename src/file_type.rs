use vstd::prelude::*;
use crate::text::str_equals;

verus! {

/// The kinds of media file that a run copies.
#[derive(Debug, Clone, Copy, PartialEq, Eq, Structural)]
pub enum MtpFileType {
    Image,
    RawImage,
    Video,
}

/// A file name whose extension names no known media type.
#[derive(Debug, Clone, Copy, PartialEq, Eq, Structural)]
pub struct UnknownFileType;

/// What `str::to_lowercase` makes of a string.
pub uninterp spec fn lower_of(s: Seq<char>) -> Seq<char>;

/// Relies on `str::to_lowercase`: the Unicode lower case of each character,
/// which depends on the characters alone.
#[verifier::external_body]
fn to_lowercase(s: &str) -> (r: String)
    ensures
        r@ == lower_of(s@),
{
    s.to_lowercase()
}

/// The text after the last `.` of a name, or `None` where the name holds no `.`.
pub open spec fn extension_of(s: Seq<char>) -> Option<Seq<char>>
    decreases s.len(),
{
    if s.len() == 0 {
        None
    } else if s.last() == '.' {
        Some(Seq::empty())
    } else {
        match extension_of(s.drop_last()) {
            Some(e) => Some(e.push(s.last())),
            None => None,
        }
    }
}

pub open spec fn is_image_extension(e: Seq<char>) -> bool {
    ||| e == "jpg"@
    ||| e == "jpeg"@
    ||| e == "heic"@
    ||| e == "heif"@
    ||| e == "png"@
    ||| e == "gif"@
    ||| e == "bmp"@
    ||| e == "tif"@
    ||| e == "tiff"@
}

pub open spec fn is_raw_extension(e: Seq<char>) -> bool {
    ||| e == "raw"@
    ||| e == "dng"@
    ||| e == "raf"@
    ||| e == "crw"@
    ||| e == "cr2"@
    ||| e == "cr3"@
    ||| e == "arw"@
    ||| e == "srf"@
    ||| e == "sr2"@
    ||| e == "rw2"@
    ||| e == "nef"@
    ||| e == "nrw"@
}

pub open spec fn is_video_extension(e: Seq<char>) -> bool {
    ||| e == "mp4"@
    ||| e == "mov"@
    ||| e == "avi"@
    ||| e == "mkv"@
    ||| e == "wmv"@
    ||| e == "flv"@
    ||| e == "webm"@
    ||| e == "m4v"@
}

/// The type that a lower-case extension stands for.
pub open spec fn type_of_extension(e: Seq<char>) -> Option<MtpFileType> {
    if is_image_extension(e) {
        Some(MtpFileType::Image)
    } else if is_raw_extension(e) {
        Some(MtpFileType::RawImage)
    } else if is_video_extension(e) {
        Some(MtpFileType::Video)
    } else {
        None
    }
}

/// The type of a file whose name is already in lower case.
pub open spec fn classify_lowered(s: Seq<char>) -> Option<MtpFileType> {
    match extension_of(s) {
        Some(e) => type_of_extension(e),
        None => None,
    }
}

/// The type of a file, from its name in any case.
pub open spec fn classify(name: Seq<char>) -> Option<MtpFileType> {
    classify_lowered(lower_of(name))
}

/// A name whose last `.` stands at `j` has the text after it as extension.
proof fn lemma_extension_after_last_dot(s: Seq<char>, j: int)
    requires
        0 <= j < s.len(),
        s[j] == '.',
        forall|k: int| j < k < s.len() ==> s[k] != '.',
    ensures
        extension_of(s) == Some(s.subrange(j + 1, s.len() as int)),
    decreases s.len(),
{
    if j + 1 < s.len() {
        lemma_extension_after_last_dot(s.drop_last(), j);
        assert(s.drop_last().subrange(j + 1, s.len() - 1).push(s.last()) == s.subrange(
            j + 1,
            s.len() as int,
        ));
    } else {
        assert(s.subrange(j + 1, s.len() as int) == Seq::<char>::empty());
    }
}

/// A name without `.` has no extension.
proof fn lemma_no_extension(s: Seq<char>)
    requires
        forall|k: int| 0 <= k < s.len() ==> s[k] != '.',
    ensures
        extension_of(s) is None,
    decreases s.len(),
{
    if s.len() > 0 {
        lemma_no_extension(s.drop_last());
    }
}

/// A lower-case name ending in `.` and an extension without `.` is
/// classified by that extension alone, whatever comes before; a lower-case
/// name without `.` is not classified.
pub proof fn lemma_classify_by_extension(stem: Seq<char>, ext: Seq<char>)
    requires
        forall|k: int| 0 <= k < ext.len() ==> ext[k] != '.',
    ensures
        classify_lowered(stem + seq!['.'] + ext) == type_of_extension(ext),
        classify_lowered(ext) is None,
{
    let s = stem + seq!['.'] + ext;
    let j = stem.len() as int;
    assert forall|k: int| j < k < s.len() implies s[k] != '.' by {
        assert(s[k] == ext[k - j - 1]);
    }
    lemma_extension_after_last_dot(s, j);
    assert(s.subrange(j + 1, s.len() as int) == ext);
    lemma_no_extension(ext);
}

/// The extension of `s`, found by a scan from its end.
fn find_extension(s: &str) -> (r: Option<&str>)
    ensures
        match r {
            Some(e) => extension_of(s@) == Some(e@),
            None => extension_of(s@) is None,
        },
{
    let n = s.unicode_len();
    let mut i: usize = n;
    while i > 0
        invariant
            n == s@.len(),
            i <= n,
            forall|k: int| i <= k < n ==> s@[k] != '.',
        decreases i,
    {
        if s.get_char(i - 1) == '.' {
            proof {
                lemma_extension_after_last_dot(s@, i - 1);
            }
            return Some(s.substring_char(i, n));
        }
        i = i - 1;
    }
    proof {
        lemma_no_extension(s@);
    }
    None
}

fn is_one_of(e: &str, names: &[&str]) -> (r: bool)
    ensures
        r == exists|k: int| 0 <= k < names@.len() && e@ == names@[k]@,
{
    let mut i: usize = 0;
    while i < names.len()
        invariant
            i <= names@.len(),
            forall|k: int| 0 <= k < i ==> e@ != #[trigger] names@[k]@,
        decreases names.len() - i,
    {
        if str_equals(e, names[i]) {
            return true;
        }
        i = i + 1;
    }
    false
}

/// Classifies an extension already in lower case.
fn type_of_lower_extension(e: &str) -> (r: Option<MtpFileType>)
    ensures
        r == type_of_extension(e@),
{
    let images: [&str; 9] = ["jpg", "jpeg", "heic", "heif", "png", "gif", "bmp", "tif", "tiff"];
    let raws: [&str; 12] = [
        "raw", "dng", "raf", "crw", "cr2", "cr3", "arw", "srf", "sr2", "rw2", "nef", "nrw",
    ];
    let videos: [&str; 8] = ["mp4", "mov", "avi", "mkv", "wmv", "flv", "webm", "m4v"];
    let is_image = is_one_of(e, images.as_slice());
    assert(is_image == is_image_extension(e@)) by {
        if is_image_extension(e@) {
            assert(images@.contains(images@[0]));
        }
    }
    if is_image {
        return Some(MtpFileType::Image);
    }
    let is_raw = is_one_of(e, raws.as_slice());
    if is_raw {
        return Some(MtpFileType::RawImage);
    }
    let is_video = is_one_of(e, videos.as_slice());
    if is_video {
        return Some(MtpFileType::Video);
    }
    None
}

/// Classifies a file name that is already in lower case.
pub fn classify_lowercase_name(name: &str) -> (r: Option<MtpFileType>)
    ensures
        r == classify_lowered(name@),
{
    match find_extension(name) {
        Some(e) => type_of_lower_extension(e),
        None => None,
    }
}

impl MtpFileType {
    /// Classifies a file by the extension of its name, in any case. A name
    /// without `.` or with an unknown extension gives `UnknownFileType`.
    pub fn try_from_file_name(name: &str) -> (r: Result<MtpFileType, UnknownFileType>)
        ensures
            r is Ok <==> classify(name@) is Some,
            r matches Ok(t) ==> classify(name@) == Some(t),
    {
        let lower = to_lowercase(name);
        match classify_lowercase_name(lower.as_str()) {
            Some(t) => Ok(t),
            None => Err(UnknownFileType),
        }
    }

    pub open spec fn spec_copy_order(self) -> nat {
        match self {
            MtpFileType::Image => 0,
            MtpFileType::RawImage => 1,
            MtpFileType::Video => 2,
        }
    }

    /// The rank of the type in a run: images first, then raw images, then
    /// videos, so that the files most likely wanted first arrive first.
    pub fn copy_order(&self) -> (r: usize)
        ensures
            r == self.spec_copy_order(),
    {
        match self {
            MtpFileType::Image => 0,
            MtpFileType::RawImage => 1,
            MtpFileType::Video => 2,
        }
    }

    pub open spec fn spec_out_path_segment(self) -> Seq<char> {
        match self {
            MtpFileType::Image => "Out-of-camera"@,
            MtpFileType::RawImage => "Undeveloped"@,
            MtpFileType::Video => "Video"@,
        }
    }

    /// The directory under the target root that holds files of this type.
    pub fn out_path_segment(&self) -> (r: &'static str)
        ensures
            r@ == self.spec_out_path_segment(),
    {
        match self {
            MtpFileType::Image => "Out-of-camera",
            MtpFileType::RawImage => "Undeveloped",
            MtpFileType::Video => "Video",
        }
    }

    pub open spec fn spec_label(self) -> Seq<char> {
        match self {
            MtpFileType::Image => "Image"@,
            MtpFileType::RawImage => "Raw image"@,
            MtpFileType::Video => "Video"@,
        }
    }

    /// A human-readable name of the type.
    pub fn label(&self) -> (r: &'static str)
        ensures
            r@ == self.spec_label(),
    {
        match self {
            MtpFileType::Image => "Image",
            MtpFileType::RawImage => "Raw image",
            MtpFileType::Video => "Video",
        }
    }
}


/// Types are ordered by their rank in a run.
impl PartialOrd for MtpFileType {
    fn partial_cmp(&self, other: &MtpFileType) -> (r: Option<core::cmp::Ordering>) {
        let a = self.copy_order();
        let b = other.copy_order();
        if a < b {
            Some(core::cmp::Ordering::Less)
        } else if a == b {
            Some(core::cmp::Ordering::Equal)
        } else {
            Some(core::cmp::Ordering::Greater)
        }
    }
}

impl vstd::std_specs::cmp::PartialOrdSpecImpl for MtpFileType {
    open spec fn obeys_partial_cmp_spec() -> bool {
        true
    }

    open spec fn partial_cmp_spec(&self, other: &MtpFileType) -> Option<core::cmp::Ordering> {
        if self.spec_copy_order() < other.spec_copy_order() {
            Some(core::cmp::Ordering::Less)
        } else if self.spec_copy_order() == other.spec_copy_order() {
            Some(core::cmp::Ordering::Equal)
        } else {
            Some(core::cmp::Ordering::Greater)
        }
    }
}

} // verus!
