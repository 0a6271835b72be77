use vstd::prelude::*;
use vstd::string::*;

verus! {

/// A parsed `name[:tag]` image reference: the repository to pull from and
/// the tag to resolve.  Immutable once parsed.
pub struct ImageReference {
    pub repository: String,
    pub tag: String,
}

/// `s` has a colon at position `i`.
pub open spec fn colon_at(s: Seq<char>, i: int) -> bool {
    0 <= i < s.len() && s[i] == ':'
}

/// `s` holds at least one colon.
pub open spec fn has_colon(s: Seq<char>) -> bool {
    exists|i: int| colon_at(s, i)
}

/// `i` is the position of the first colon of `s`.
pub open spec fn first_colon(s: Seq<char>, i: int) -> bool {
    colon_at(s, i) && (forall|j: int| 0 <= j < i ==> s[j] != ':')
}

/// What `parse_image_reference` returns: without a colon the whole input is
/// the repository and the tag defaults to `latest`; with one, the repository
/// is everything before the first colon and the tag everything after it.
pub open spec fn parses_to(s: Seq<char>, r: ImageReference) -> bool {
    if has_colon(s) {
        exists|i: int|
            #[trigger] first_colon(s, i) && r.repository@ == s.subrange(0, i) && r.tag@
                == s.subrange(i + 1, s.len() as int)
    } else {
        r.repository@ == s && r.tag@ == "latest"@
    }
}

/// Splits an image reference at its first colon; a reference without a colon
/// names the `latest` tag.
pub fn parse_image_reference(s: &str) -> (r: ImageReference)
    ensures
        parses_to(s@, r),
{
    let len: usize = s.unicode_len();
    let mut i: usize = 0;
    while i < len
        invariant
            0 <= i <= len,
            len == s@.len(),
            forall|j: int| 0 <= j < i ==> s@[j] != ':',
        decreases len - i,
    {
        if s.get_char(i) == ':' {
            let repository = s.substring_char(0, i).to_owned();
            let tag = s.substring_char(i + 1, len).to_owned();
            let r = ImageReference { repository, tag };
            proof {
                assert(first_colon(s@, i as int));
            }
            return r;
        }
        i += 1;
    }
    let repository = s.to_owned();
    let tag: String = "latest".to_owned();
    let r = ImageReference { repository, tag };
    proof {
        assert(forall|k: int| 0 <= k < s@.len() ==> s@[k] != ':');
        assert(!has_colon(s@));
    }
    r
}

} // verus!
