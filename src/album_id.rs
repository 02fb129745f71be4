use vstd::prelude::*;
use vstd::string::StringSliceAdditionalSpecFns;
use vstd::utf8::*;

verus! {

broadcast use vstd::utf8::encode_utf8_valid_utf8;

/// An ASCII digit or ASCII letter.
pub open spec fn is_alnum_byte(b: u8) -> bool {
    (0x30 <= b <= 0x39) || (0x41 <= b <= 0x5a) || (0x61 <= b <= 0x7a)
}

/// Every byte is an ASCII digit or letter (the empty sequence qualifies).
pub open spec fn all_alnum(s: Seq<u8>) -> bool {
    forall|i: int| 0 <= i < s.len() ==> #[trigger] is_alnum_byte(s[i])
}

/// A valid album id: non-empty and ASCII alphanumeric throughout.
pub open spec fn is_album_id(s: Seq<u8>) -> bool {
    s.len() > 0 && all_alnum(s)
}

/// Position of the last `/` in `s`, if any.
pub open spec fn last_slash(s: Seq<u8>) -> Option<int>
    decreases s.len(),
{
    if s.len() == 0 {
        None
    } else if s.last() == 0x2fu8 {
        Some(s.len() - 1)
    } else {
        last_slash(s.drop_last())
    }
}

/// The album id that an argument denotes: the whole argument when it is an
/// id, else the part after its last `/` when that part is an id.
pub open spec fn album_id_of(s: Seq<u8>) -> Option<Seq<u8>> {
    if is_album_id(s) {
        Some(s)
    } else {
        match last_slash(s) {
            Some(k) => if is_album_id(s.subrange(k + 1, s.len() as int)) {
                Some(s.subrange(k + 1, s.len() as int))
            } else {
                None
            },
            None => None,
        }
    }
}

/// A valid id stands for itself.
pub proof fn lemma_id_denotes_itself(s: Seq<u8>)
    requires
        is_album_id(s),
    ensures
        album_id_of(s) == Some(s),
{
}

proof fn lemma_last_slash_skips(a: Seq<u8>, t: Seq<u8>)
    requires
        forall|j: int| 0 <= j < t.len() ==> t[j] != 0x2fu8,
    ensures
        last_slash(a + t) == last_slash(a),
    decreases t.len(),
{
    if t.len() > 0 {
        assert((a + t).drop_last() == a + t.drop_last());
        lemma_last_slash_skips(a, t.drop_last());
    } else {
        assert(a + t == a);
    }
}

/// A path whose last segment is a valid id denotes that id, whatever stands
/// before the last `/`.
pub proof fn lemma_last_segment_is_id(prefix: Seq<u8>, id: Seq<u8>)
    requires
        is_album_id(id),
    ensures
        album_id_of(prefix + seq![0x2fu8] + id) == Some(id),
{
    let s = prefix + seq![0x2fu8] + id;
    let p = prefix + seq![0x2fu8];
    assert(s[prefix.len() as int] == 0x2fu8);
    assert(!is_alnum_byte(s[prefix.len() as int]));
    assert forall|j: int| 0 <= j < id.len() implies id[j] != 0x2fu8 by {
        assert(is_alnum_byte(id[j]));
    }
    lemma_last_slash_skips(p, id);
    assert(p.drop_last() == prefix);
    assert(s.subrange(prefix.len() + 1 as int, s.len() as int) == id);
}

/// No id is found in an empty argument, in one that ends in `/`, or in one
/// that is not alphanumeric throughout and has no valid segment after a `/`.
pub proof fn lemma_rejected_arguments(s: Seq<u8>)
    ensures
        s.len() == 0 ==> album_id_of(s) is None,
        s.len() > 0 && s.last() == 0x2fu8 ==> album_id_of(s) is None,
        !all_alnum(s) && (match last_slash(s) {
            Some(k) => !is_album_id(s.subrange(k + 1, s.len() as int)),
            None => true,
        }) ==> album_id_of(s) is None,
{
    if s.len() > 0 && s.last() == 0x2fu8 {
        assert(!is_alnum_byte(s[s.len() - 1]));
    }
}

/// Why an argument was not accepted as an album reference.
#[derive(Debug, Clone, Copy, PartialEq, Eq, Structural)]
pub enum AlbumRefError {
    InvalidAlbumReference,
}

/// Whether every character of `s` is an ASCII digit or letter.
pub fn is_ascii_alphanumeric(s: &str) -> (r: bool)
    ensures
        r == all_alnum(s.spec_bytes()),
{
    let b = s.as_bytes();
    let mut i: usize = 0;
    while i < b.len()
        invariant
            b@ == s.spec_bytes(),
            i <= b@.len(),
            all_alnum(b@.subrange(0, i as int)),
        decreases b@.len() - i,
    {
        let c = b[i];
        if !((0x30 <= c && c <= 0x39) || (0x41 <= c && c <= 0x5a) || (0x61 <= c && c <= 0x7a)) {
            assert(!is_alnum_byte(b@[i as int]));
            return false;
        }
        assert(b@.subrange(0, i + 1) == b@.subrange(0, i as int).push(c));
        i = i + 1;
    }
    assert(b@.subrange(0, i as int) == b@);
    true
}

/// Finds the album id that `s` denotes: `s` itself when it is non-empty and
/// ASCII alphanumeric, else the part after the last `/` when that part is.
pub fn extract_album_id_from_argument(s: &str) -> (r: Option<&str>)
    ensures
        r is Some <==> album_id_of(s.spec_bytes()) is Some,
        r matches Some(t) ==> album_id_of(s.spec_bytes()) == Some(t.spec_bytes()),
{
    let b = s.as_bytes();
    if is_ascii_alphanumeric(s) && !s.is_empty() {
        proof {
            if s.spec_bytes().len() == 0 {
                assert(s@.len() == 0);
            }
        }
        return Some(s);
    }
    proof {
        if is_album_id(s.spec_bytes()) {
            assert(s.spec_bytes().len() > 0);
            assert(s@.len() != 0);
        }
    }
    let mut k: usize = b.len();
    assert(b@.subrange(0, k as int) == b@);
    while k > 0 && b[k - 1] != 0x2f
        invariant
            b@ == s.spec_bytes(),
            k <= b@.len(),
            !is_album_id(b@),
            last_slash(b@) == last_slash(b@.subrange(0, k as int)),
        decreases k,
    {
        assert(b@.subrange(0, k - 1) == b@.subrange(0, k as int).drop_last());
        k = k - 1;
    }
    if k == 0 {
        assert(b@.subrange(0, 0) == Seq::<u8>::empty());
        return None;
    }
    assert(last_slash(b@) == Some(k - 1));
    let mut i: usize = k;
    while i < b.len()
        invariant
            b@ == s.spec_bytes(),
            k <= i <= b@.len(),
            k > 0,
            !is_album_id(b@),
            last_slash(b@) == Some(k - 1),
            all_alnum(b@.subrange(k as int, i as int)),
        decreases b@.len() - i,
    {
        let c = b[i];
        if !((0x30 <= c && c <= 0x39) || (0x41 <= c && c <= 0x5a) || (0x61 <= c && c <= 0x7a)) {
            assert(!is_alnum_byte(b@.subrange(k as int, b@.len() as int)[i - k]));
            assert(!is_album_id(b@.subrange(k as int, b@.len() as int)));
            return None;
        }
        assert(b@.subrange(k as int, i + 1) == b@.subrange(k as int, i as int).push(c));
        i = i + 1;
    }
    if k == b.len() {
        return None;
    }
    proof {
        assert(!is_continuation_byte(b@[k as int])) by {
            assert(b@.subrange(k as int, i as int) == b@.subrange(k as int, b@.len() as int));
            assert(b@[k as int] == b@.subrange(k as int, b@.len() as int)[0]);
            assert(is_alnum_byte(b@.subrange(k as int, b@.len() as int)[0]));
        }
        is_char_boundary_iff_not_is_continuation_byte(b@, k as int);
    }
    let (_, id) = s.split_at(k);
    Some(id)
}

/// Like `extract_album_id_from_argument`, returning an owned id or an error.
pub fn parse_album_argument(s: &str) -> (r: Result<String, AlbumRefError>)
    ensures
        r is Ok <==> album_id_of(s.spec_bytes()) is Some,
        r matches Ok(id) ==> album_id_of(s.spec_bytes()) == Some(encode_utf8(id@)),
        r matches Err(e) ==> e == AlbumRefError::InvalidAlbumReference,
{
    match extract_album_id_from_argument(s) {
        Some(t) => Ok(t.to_owned()),
        None => Err(AlbumRefError::InvalidAlbumReference),
    }
}

} // verus!
