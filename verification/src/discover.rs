//! Supported-extension filtering of file paths.
//!
//! A path is supported when the extension of its final component — what
//! follows the last dot of the file name, provided that dot is not the
//! name's first character — matches one of the supported audio extensions,
//! ignoring ASCII case.  Directory traversal itself is left to the caller;
//! only this decision lives here.

use vstd::prelude::*;
use vstd::string::StrSliceExecFns;

verus! {

/// Index where the final path component begins: just after the last `/`,
/// or `0` when the path has no `/`.
pub open spec fn file_name_start(p: Seq<char>) -> int
    decreases p.len(),
{
    if p.len() == 0 {
        0
    } else if p.last() == '/' {
        p.len() as int
    } else {
        file_name_start(p.drop_last())
    }
}

/// Index inside a file name where its extension begins: just after the
/// last `.`, or `0` when the name has no `.`.
pub open spec fn ext_start(name: Seq<char>) -> int
    decreases name.len(),
{
    if name.len() == 0 {
        0
    } else if name.last() == '.' {
        name.len() as int
    } else {
        ext_start(name.drop_last())
    }
}

/// The code points of a character sequence.
pub open spec fn codes(s: Seq<char>) -> Seq<u32> {
    s.map_values(|c: char| c as u32)
}

/// The code point of `c` with an ASCII capital letter folded to its small
/// counterpart.
pub open spec fn lower_code(c: char) -> u32 {
    if 65 <= c as u32 <= 90 {
        (c as u32 + 32) as u32
    } else {
        c as u32
    }
}

/// The code points of a character sequence, ASCII capitals folded.
pub open spec fn lower_codes(s: Seq<char>) -> Seq<u32> {
    s.map_values(|c: char| lower_code(c))
}

/// Whether the (already case-folded) extension code points name a
/// supported audio container format.
pub open spec fn supported_ext(e: Seq<u32>) -> bool {
    ||| e == codes("wav"@)
    ||| e == codes("mp3"@)
    ||| e == codes("flac"@)
    ||| e == codes("ogg"@)
    ||| e == codes("m4a"@)
    ||| e == codes("webm"@)
}

/// Whether the path's final component carries a supported extension: there
/// is a `.` after the component's first character, and what follows the
/// last such `.` is one of the supported extensions up to ASCII case.
pub open spec fn is_supported_spec(p: Seq<char>) -> bool {
    let name = p.subrange(file_name_start(p), p.len() as int);
    let e = ext_start(name);
    e >= 2 && supported_ext(lower_codes(name.subrange(e, name.len() as int)))
}

/// Whether the case-folded characters of `path` starting at `start` spell
/// exactly the `n` characters of `cand`.
fn ext_eq(path: &str, start: usize, n: usize, cand: &str) -> (r: bool)
    requires
        start + n <= path@.len(),
        path@.len() <= usize::MAX,
        cand@.len() == n,
    ensures
        r == (lower_codes(path@.subrange(start as int, (start + n) as int)) == codes(cand@)),
{
    let ghost sub = path@.subrange(start as int, (start + n) as int);
    let mut i: usize = 0;
    while i < n
        invariant
            start + n <= path@.len(),
            path@.len() <= usize::MAX,
            cand@.len() == n,
            i <= n,
            sub == path@.subrange(start as int, (start + n) as int),
            forall|q: int| 0 <= q < i ==> lower_codes(sub)[q] == codes(cand@)[q],
        decreases n - i,
    {
        let pc = path.get_char(start + i);
        let cc = cand.get_char(i);
        let pcode: u32 = pc as u32;
        let folded: u32 = if 65 <= pcode && pcode <= 90 {
            pcode + 32
        } else {
            pcode
        };
        assert(folded == lower_code(pc));
        assert(sub[i as int] == path@[start + i]);
        if folded != (cc as u32) {
            assert(lower_codes(sub)[i as int] != codes(cand@)[i as int]);
            return false;
        }
        assert(lower_codes(sub)[i as int] == codes(cand@)[i as int]);
        i = i + 1;
    }
    proof {
        assert(lower_codes(sub) =~= codes(cand@));
    }
    true
}

/// Whether `path` names a file with a supported audio extension, matched
/// case-insensitively over the ASCII range.  Paths use `/` as the
/// component separator; a dot that starts the final component does not
/// begin an extension.
pub fn is_supported(path: &str) -> (r: bool)
    ensures
        r == is_supported_spec(path@),
{
    let len = path.unicode_len();
    proof {
        assert(path@.take(0) =~= Seq::<char>::empty());
    }
    // Start of the final path component.
    let mut fns: usize = 0;
    let mut i: usize = 0;
    while i < len
        invariant
            len == path@.len(),
            i <= len,
            fns <= i,
            fns == file_name_start(path@.take(i as int)),
        decreases len - i,
    {
        proof {
            assert(path@.take(i + 1).drop_last() =~= path@.take(i as int));
            assert(path@.take(i + 1).last() == path@[i as int]);
        }
        if path.get_char(i) == '/' {
            fns = i + 1;
        }
        i = i + 1;
    }
    proof {
        assert(path@.take(len as int) =~= path@);
    }
    let ghost name = path@.subrange(fns as int, len as int);
    // Start of the extension inside the final component.
    let mut ld: usize = 0;
    let mut j: usize = fns;
    while j < len
        invariant
            len == path@.len(),
            fns <= j <= len,
            ld <= j - fns,
            name == path@.subrange(fns as int, len as int),
            ld == ext_start(path@.subrange(fns as int, j as int)),
        decreases len - j,
    {
        proof {
            assert(path@.subrange(fns as int, j + 1).drop_last() =~= path@.subrange(
                fns as int,
                j as int,
            ));
            assert(path@.subrange(fns as int, j + 1).last() == path@[j as int]);
        }
        if path.get_char(j) == '.' {
            ld = j + 1 - fns;
        }
        j = j + 1;
    }
    proof {
        assert(path@.subrange(fns as int, len as int) == name);
        assert(ext_start(name) == ld);
        reveal_strlit("wav");
        reveal_strlit("mp3");
        reveal_strlit("flac");
        reveal_strlit("ogg");
        reveal_strlit("m4a");
        reveal_strlit("webm");
    }
    if ld < 2 {
        return false;
    }
    let nlen = len - fns;
    let elen = nlen - ld;
    let estart = fns + ld;
    let ghost e = name.subrange(ld as int, nlen as int);
    proof {
        assert(e =~= path@.subrange(estart as int, (estart + elen) as int));
        assert(lower_codes(e).len() == elen);
    }
    let r = if elen == 3 {
        ext_eq(path, estart, 3, "wav") || ext_eq(path, estart, 3, "mp3") || ext_eq(
            path,
            estart,
            3,
            "ogg",
        ) || ext_eq(path, estart, 3, "m4a")
    } else if elen == 4 {
        ext_eq(path, estart, 4, "flac") || ext_eq(path, estart, 4, "webm")
    } else {
        false
    };
    proof {
        if elen != 3 && elen != 4 {
            assert(!supported_ext(lower_codes(e)));
        }
    }
    r
}

} // verus!
