//! Recognizing video files by their names.

use vstd::prelude::*;
use crate::text::{chars_of, clean_title, clean_title_of, lowercased, string_of_range, to_lower};

verus! {

/// A video file that a scan found: the title that its name stands for, and
/// its absolute path.
#[derive(Debug)]
pub struct ScanEntry {
    pub title: String,
    pub path: String,
}

pub ghost struct ScanEntryView {
    pub title: Seq<char>,
    pub path: Seq<char>,
}

impl View for ScanEntry {
    type V = ScanEntryView;

    open spec fn view(&self) -> ScanEntryView {
        ScanEntryView { title: self.title@, path: self.path@ }
    }
}

impl Clone for ScanEntry {
    fn clone(&self) -> (r: Self)
        ensures
            r@ == self@,
    {
        ScanEntry { title: self.title.clone(), path: self.path.clone() }
    }
}

/// The index of the last `.` in `name`, and -1 where it holds none.
pub open spec fn last_dot(name: Seq<char>) -> int
    decreases name.len(),
{
    if name.len() == 0 {
        -1
    } else if name.last() == '.' {
        name.len() - 1
    } else {
        last_dot(name.drop_last())
    }
}

/// A file name has an extension if it holds a `.` behind its first
/// character.
pub open spec fn has_extension(name: Seq<char>) -> bool {
    last_dot(name) > 0
}

/// What stands behind the last `.` of a file name.
pub open spec fn extension_of(name: Seq<char>) -> Seq<char> {
    name.skip(last_dot(name) + 1)
}

/// The file name without its extension.
pub open spec fn stem_of(name: Seq<char>) -> Seq<char> {
    if has_extension(name) {
        name.take(last_dot(name))
    } else {
        name
    }
}

/// The extension, in lowercase, is one of a video file.
pub open spec fn is_video_extension(ext: Seq<char>) -> bool {
    let e = lowercased(ext);
    e == "mp4"@ || e == "mkv"@ || e == "avi"@ || e == "mov"@ || e == "wmv"@ || e == "flv"@ || e
        == "webm"@ || e == "m4v"@
}

/// The entry that a file named `name` at `path` gives: none unless the name
/// has the extension of a video file.
pub open spec fn entry_for(name: Seq<char>, path: Seq<char>) -> Option<ScanEntryView> {
    if has_extension(name) && is_video_extension(extension_of(name)) {
        Some(ScanEntryView { title: clean_title_of(stem_of(name)), path })
    } else {
        None
    }
}

proof fn lemma_last_dot(name: Seq<char>, i: int)
    requires
        -1 <= i < name.len(),
        i >= 0 ==> name[i] == '.',
        forall|k: int| i < k < name.len() ==> name[k] != '.',
    ensures
        last_dot(name) == i,
    decreases name.len(),
{
    if name.len() > 0 && i < name.len() - 1 {
        let t = name.drop_last();
        assert(name[name.len() - 1] != '.');
        assert forall|k: int| i < k < t.len() implies t[k] != '.' by {
            assert(t[k] == name[k]);
        }
        if i >= 0 {
            assert(t[i] == name[i]);
        }
        lemma_last_dot(t, i);
    }
}

/// Whether `ext` is the extension of a video file, letter case ignored.
pub fn video_extension(ext: &str) -> (r: bool)
    ensures
        r == is_video_extension(ext@),
{
    let e = to_lower(ext);
    e == "mp4".to_owned() || e == "mkv".to_owned() || e == "avi".to_owned() || e
        == "mov".to_owned() || e == "wmv".to_owned() || e == "flv".to_owned() || e
        == "webm".to_owned() || e == "m4v".to_owned()
}

/// The scan entry for the file named `name` that lies at `path`, if the
/// name is that of a video file.
pub fn recognize(name: &str, path: &str) -> (r: Option<ScanEntry>)
    ensures
        match r {
            Some(e) => Some(e@),
            None => None,
        } == entry_for(name@, path@),
{
    let cs = chars_of(name);
    let mut i: usize = cs.len();
    while i > 0 && cs[i - 1] != '.'
        invariant
            i <= cs.len(),
            forall|k: int| i <= k < cs.len() ==> cs@[k] != '.',
        decreases i,
    {
        i -= 1;
    }
    proof {
        lemma_last_dot(cs@, i as int - 1);
    }
    if i < 2 {
        return None;
    }
    let ext = string_of_range(&cs, i, cs.len());
    assert(cs@.subrange(i as int, cs@.len() as int) =~= extension_of(cs@));
    if !video_extension(ext.as_str()) {
        return None;
    }
    let stem = string_of_range(&cs, 0, i - 1);
    assert(cs@.subrange(0, i - 1) =~= stem_of(cs@));
    Some(ScanEntry { title: clean_title(stem.as_str()), path: path.to_owned() })
}

} // verus!
