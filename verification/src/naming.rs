//! The name of the file that a trimmed save is written to.

use vstd::prelude::*;
use vstd::string::StrSliceExecFns;
use vstd::string::StringExecFns;

verus! {

/// The position of the last `c` before `upto`.
pub open spec fn last_index_of(name: Seq<char>, c: char, upto: int) -> Option<int>
    decreases upto,
{
    if upto <= 0 || upto > name.len() {
        None
    } else if name[upto - 1] == c {
        Some(upto - 1)
    } else {
        last_index_of(name, c, upto - 1)
    }
}

/// Where a file name parts into stem and extension: at its last dot, unless
/// that dot is the first character or there is none.
pub open spec fn split_point(name: Seq<char>) -> Option<int> {
    match last_index_of(name, '.', name.len() as int) {
        Some(i) => if i > 0 {
            Some(i)
        } else {
            None
        },
        None => None,
    }
}

/// The file name without its extension.
pub open spec fn stem(name: Seq<char>) -> Seq<char> {
    match split_point(name) {
        Some(i) => name.subrange(0, i),
        None => name,
    }
}

/// What follows the last dot of a file name.
pub open spec fn extension(name: Seq<char>) -> Option<Seq<char>> {
    match split_point(name) {
        Some(i) => Some(name.subrange(i + 1, name.len() as int)),
        None => None,
    }
}

/// The file is taken for a gzip stream: its extension is `gz`.
pub open spec fn names_gzip(name: Seq<char>) -> bool {
    extension(name) == Some("gz"@)
}

/// The name of the trimmed file: the stem, `.Trimmed`, and `.gz` where the
/// input is a gzip stream.
pub open spec fn trimmed_name(name: Seq<char>) -> Seq<char> {
    if names_gzip(name) {
        stem(name) + ".Trimmed.gz"@
    } else {
        stem(name) + ".Trimmed"@
    }
}

/// Behind the last dot of a name there is no dot.
pub proof fn lemma_last_index_of(name: Seq<char>, c: char, upto: int)
    requires
        0 <= upto <= name.len(),
    ensures
        match last_index_of(name, c, upto) {
            Some(i) => {
                &&& 0 <= i < upto
                &&& name[i] == c
                &&& forall|j: int| i < j < upto ==> name[j] != c
            },
            None => forall|j: int| 0 <= j < upto ==> name[j] != c,
        },
    decreases upto,
{
    if upto > 0 && name[upto - 1] != c {
        lemma_last_index_of(name, c, upto - 1);
    }
}

/// The name of the trimmed file says how the file is framed: it names a gzip
/// stream exactly if the name of the input does.
pub proof fn lemma_trimmed_name_keeps_framing(name: Seq<char>)
    ensures
        names_gzip(trimmed_name(name)) == names_gzip(name),
{
    reveal_strlit(".Trimmed.gz");
    reveal_strlit(".Trimmed");
    reveal_strlit("gz");
    let out = trimmed_name(name);
    let base = stem(name).len() as int;
    lemma_last_index_of(out, '.', out.len() as int);
    if names_gzip(name) {
        assert(out[base + 8] == '.');
        assert(out[base + 9] == 'g');
        assert(out[base + 10] == 'z');
        assert(last_index_of(out, '.', out.len() as int) == Some(base + 8));
        assert(out.subrange(base + 9, out.len() as int) =~= "gz"@);
    } else {
        assert(out[base] == '.');
        assert(out[base + 1] == 'T');
        assert(last_index_of(out, '.', out.len() as int) == Some(base));
        if base > 0 {
            assert(out.subrange(base + 1, out.len() as int)[0] == 'T');
            assert("gz"@[0] == 'g');
        }
    }
}

/// Where a file name parts into stem and extension.
pub fn find_split(name: &str) -> (r: Option<usize>)
    ensures
        match r {
            Some(i) => split_point(name@) == Some(i as int) && 0 < i < name@.len(),
            None => split_point(name@) is None,
        },
{
    let len: usize = name.unicode_len();
    let mut upto: usize = len;
    while upto > 0
        invariant
            upto <= len,
            len == name@.len(),
            last_index_of(name@, '.', len as int) == last_index_of(name@, '.', upto as int),
        decreases upto,
    {
        if name.get_char(upto - 1) == '.' {
            if upto - 1 > 0 {
                return Some(upto - 1);
            } else {
                return None;
            }
        }
        upto -= 1;
    }
    None
}

/// Whether the file is taken for a gzip stream.
pub fn is_gzip_name(name: &str) -> (r: bool)
    ensures
        r == names_gzip(name@),
{
    proof {
        reveal_strlit("gz");
    }
    match find_split(name) {
        Some(i) => {
            let len: usize = name.unicode_len();
            let r: bool = len - i == 3 && name.get_char(i + 1) == 'g' && name.get_char(i + 2)
                == 'z';
            proof {
                let ext = name@.subrange(i + 1, len as int);
                if r {
                    assert(ext =~= "gz"@);
                } else if ext == "gz"@ {
                    assert(ext[0] == 'g' && ext[1] == 'z');
                }
            }
            r
        },
        None => false,
    }
}

/// The name of the file that the trim of `name` is written to.
pub fn output_name(name: &str) -> (out: String)
    ensures
        out@ == trimmed_name(name@),
{
    let stem_text = match find_split(name) {
        Some(i) => name.substring_char(0, i),
        None => name,
    };
    let mut out = String::from_str(stem_text);
    if is_gzip_name(name) {
        out.append(".Trimmed.gz");
    } else {
        out.append(".Trimmed");
    }
    out
}

} // verus!
