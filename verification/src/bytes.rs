//! Bytes on their way.

use vstd::prelude::*;

verus! {

/// As much of what was read as was asked for.
pub open spec fn at_most(chunk: Seq<u8>, most: nat) -> Seq<u8> {
    if chunk.len() <= most {
        chunk
    } else {
        chunk.take(most as int)
    }
}

pub(crate) fn take_at_most(chunk: Vec<u8>, most: usize) -> (taken: Vec<u8>)
    ensures
        taken@ == at_most(chunk@, most as nat),
{
    let mut bytes = chunk;
    if bytes.len() > most {
        bytes.truncate(most);
    }
    proof {
        assert(bytes@ =~= at_most(chunk@, most as nat));
    }
    bytes
}

pub(crate) fn append_bytes(out: &mut Vec<u8>, bytes: &[u8])
    ensures
        final(out)@ == old(out)@ + bytes@,
{
    let ghost start = out@;
    let mut i: usize = 0;
    proof {
        assert(out@ =~= start + bytes@.take(0));
    }
    while i < bytes.len()
        invariant
            i <= bytes@.len(),
            out@ == start + bytes@.take(i as int),
        decreases bytes.len() - i,
    {
        out.push(bytes[i]);
        proof {
            assert(out@ =~= start + bytes@.take(i + 1));
        }
        i = i + 1;
    }
    proof {
        assert(bytes@.take(i as int) =~= bytes@);
    }
}

} // verus!
