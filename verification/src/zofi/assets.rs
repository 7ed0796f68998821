//! The images that come with the launcher.

use vstd::prelude::*;
use vstd::string::*;

use crate::text;

verus! {

/// What the path of an image is below the directory of the images.
pub open spec fn below_icons(path: Seq<char>) -> Seq<char> {
    if text::starts_with(path, "icons/"@) {
        path.skip("icons/"@.len() as int)
    } else {
        path
    }
}

fn stripped(path: &str) -> (r: String)
    ensures
        r@ == below_icons(path@),
{
    let prefix = text::chars_of("icons/");
    if text::str_starts_with(path, "icons/") {
        let chars = text::chars_of(path);
        let rest = vstd::slice::slice_subrange(chars.as_slice(), prefix.len(), chars.len());
        proof {
            assert(rest@ =~= path@.skip(prefix@.len() as int));
        }
        text::string_of(rest)
    } else {
        path.to_owned()
    }
}

/// Those of the images whose path begins with `prefix`, with the name of their
/// directory in front.
pub open spec fn listed(files: Seq<String>, prefix: Seq<char>) -> Seq<Seq<char>>
    decreases files.len(),
{
    if files.len() == 0 {
        Seq::empty()
    } else {
        let rest = listed(files.drop_last(), prefix);
        if text::starts_with(files.last()@, below_icons(prefix)) {
            rest.push("icons/"@ + files.last()@)
        } else {
            rest
        }
    }
}

/// The images, by their paths below their directory.
#[derive(Debug)]
pub struct Assets {
    pub files: Vec<String>,
}

impl Assets {
    /// Where the image at a path is among the files.
    pub fn load(&self, path: &str) -> (r: Option<usize>)
        ensures
            match r {
                Some(i) => {
                    &&& i < self.files@.len()
                    &&& self.files@[i as int]@ == below_icons(path@)
                    &&& forall|k: int|
                        0 <= k < i ==> (#[trigger] self.files@[k])@ != below_icons(path@)
                },
                None => forall|k: int|
                    0 <= k < self.files@.len() ==> (#[trigger] self.files@[k])@
                        != below_icons(path@),
            },
    {
        let wanted = stripped(path);
        let mut i: usize = 0;
        while i < self.files.len()
            invariant
                i <= self.files@.len(),
                wanted@ == below_icons(path@),
                forall|k: int| 0 <= k < i ==> (#[trigger] self.files@[k])@ != wanted@,
            decreases self.files.len() - i,
        {
            if text::str_eq(self.files[i].as_str(), wanted.as_str()) {
                return Some(i);
            }
            i = i + 1;
        }
        None
    }

    /// Lists images by how their paths begin.
    pub fn list(&self, prefix: &str) -> (r: Vec<String>)
        ensures
            text::views(r@) == listed(self.files@, prefix@),
    {
        let below = stripped(prefix);
        let files = &self.files;
        let mut out: Vec<String> = Vec::new();
        let mut i: usize = 0;
        proof {
            assert(files@.take(0) =~= Seq::<String>::empty());
            assert(text::views(out@) =~= Seq::<Seq<char>>::empty());
        }
        while i < files.len()
            invariant
                i <= files@.len(),
                below@ == below_icons(prefix@),
                text::views(out@) == listed(files@.take(i as int), prefix@),
            decreases files.len() - i,
        {
            proof {
                assert(files@.take(i + 1).drop_last() =~= files@.take(i as int));
                assert(files@.take(i + 1).last() == files@[i as int]);
            }
            if text::str_starts_with(files[i].as_str(), below.as_str()) {
                let ghost had = out@;
                out.push(text::concat2("icons/", files[i].as_str()));
                proof {
                    assert(text::views(out@) =~= text::views(had).push("icons/"@ + files@[i as int]@));
                }
            }
            i = i + 1;
        }
        proof {
            assert(files@.take(i as int) =~= files@);
        }
        out
    }
}

} // verus!
