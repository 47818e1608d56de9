use vstd::prelude::*;
use vstd::string::*;
use vstd::utf8::*;

verus! {

/// The byte that separates the components of a path.
pub const SEPARATOR: u8 = 0x2f;

/// The bytes after the last separator of `b`, or all of `b` where it holds
/// none.
pub open spec fn after_last_separator(b: Seq<u8>) -> Seq<u8>
    decreases b.len(),
{
    if b.len() == 0 {
        b
    } else if b.last() == SEPARATOR {
        seq![]
    } else {
        after_last_separator(b.drop_last()).push(b.last())
    }
}

/// In valid UTF-8, the byte after a single-byte character starts a
/// character, or is the end.
proof fn lemma_boundary_after_ascii(b: Seq<u8>, i: int)
    requires
        valid_utf8(b),
        0 <= i < b.len(),
        is_char_boundary(b, i),
        b[i] < 0x80,
    ensures
        is_char_boundary(b, i + 1),
    decreases b.len(),
{
    reveal_with_fuel(is_char_boundary, 2);
    if i > 0 {
        lemma_boundary_after_ascii(pop_first_scalar(b), i - length_of_first_scalar(b));
    }
}

/// The last component of `path`: what follows its last `/`, or the whole
/// path where it holds none.
pub fn path_to_name(path: &String) -> (r: String)
    ensures
        encode_utf8(r@) == after_last_separator(encode_utf8(path@)),
{
    let s: &str = path.as_str();
    let b: &[u8] = s.as_bytes();
    let i_end: usize = b.len();
    let mut i: usize = i_end;
    proof {
        assert(b@.subrange(0, i as int) =~= b@);
        assert(after_last_separator(b@) + b@.subrange(i as int, b@.len() as int) =~= after_last_separator(b@));
    }
    while i > 0
        invariant
            i <= b@.len(),
            b@ == encode_utf8(s@),
            s@ == path@,
            after_last_separator(b@) == after_last_separator(b@.subrange(0, i as int))
                + b@.subrange(i as int, b@.len() as int),
        decreases i,
    {
        if b[i - 1] == SEPARATOR {
            proof {
                encode_utf8_valid_utf8(s@);
                is_char_boundary_iff_not_is_continuation_byte(b@, i - 1);
                lemma_boundary_after_ascii(b@, i - 1);
                assert(b@.subrange(0, i as int).last() == SEPARATOR);
            }
            let (_, name) = s.split_at(i);
            proof {
                assert(after_last_separator(b@) =~= b@.subrange(i as int, b@.len() as int));
                encode_utf8_decode_utf8(name@);
            }
            return name.to_owned();
        }
        proof {
            let head = b@.subrange(0, i as int);
            assert(head.drop_last() =~= b@.subrange(0, i - 1));
            assert(b@.subrange(i - 1, b@.len() as int) =~= seq![head.last()] + b@.subrange(
                i as int,
                b@.len() as int,
            ));
            assert(after_last_separator(head) == after_last_separator(head.drop_last()).push(
                head.last(),
            ));
            assert(after_last_separator(b@.subrange(0, i - 1)).push(head.last()) + b@.subrange(
                i as int,
                b@.len() as int,
            ) =~= after_last_separator(b@.subrange(0, i - 1)) + b@.subrange(i - 1, b@.len() as int));
        }
        i = i - 1;
    }
    proof {
        assert(b@.subrange(0, 0) =~= Seq::<u8>::empty());
        assert(b@.subrange(0, b@.len() as int) =~= b@);
        assert(Seq::<u8>::empty() + b@ =~= b@);
    }
    path.clone()
}


/// The path of the entry called `name` in the directory `dir`.
pub fn join_path(dir: &str, name: &str) -> (r: String)
    ensures
        r@ == dir@ + seq!['/'] + name@,
{
    let mut out = String::from_str(dir);
    out.append("/");
    out.append(name);
    proof {
        reveal_strlit("/");
        assert(out@ =~= dir@ + seq!['/'] + name@);
    }
    out
}

} // verus!
