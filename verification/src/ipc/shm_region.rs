use crate::error::CscpError;
use vstd::prelude::*;
use vstd::string::StringSliceAdditionalSpecFns;

verus! {

/// The byte `/` that starts every POSIX shared memory object name.
pub const NAME_PREFIX: u8 = 0x2f;

/// The POSIX object name for a region name: the name itself when it already
/// starts with `/`, else the name with `/` put in front.
pub open spec fn object_name(name: Seq<u8>) -> Seq<u8> {
    if name.len() > 0 && name[0] == NAME_PREFIX {
        name
    } else {
        seq![NAME_PREFIX] + name
    }
}

/// The bytes hold a NUL byte, which no C string can carry.
pub open spec fn has_nul(bytes: Seq<u8>) -> bool {
    exists|i: int| 0 <= i < bytes.len() && bytes[i] == 0
}

/// The message of the error given for a name that cannot be an object name.
pub open spec fn invalid_name_message() -> Seq<char> {
    "Invalid SHM name"@
}

/// Every object name starts with `/`, and naming an object name again
/// changes nothing.
pub proof fn lemma_object_name_is_idempotent(name: Seq<u8>)
    ensures
        object_name(name).len() > 0,
        object_name(name)[0] == NAME_PREFIX,
        object_name(object_name(name)) == object_name(name),
        object_name(name).len() == name.len() || object_name(name).len() == name.len() + 1,
{
}

/// The object name keeps every byte of the region name, in order: it is the
/// name itself when the name already starts with `/`, else `/` followed by the
/// name; so the name is always what follows the object name's first byte or
/// the whole object name, and a name that does not start with `/` gets
/// exactly one byte more.
pub proof fn lemma_object_name_keeps_name(name: Seq<u8>)
    ensures
        name.len() > 0 && name[0] == NAME_PREFIX ==> object_name(name) == name,
        !(name.len() > 0 && name[0] == NAME_PREFIX) ==> {
            &&& object_name(name).len() == name.len() + 1
            &&& object_name(name)[0] == NAME_PREFIX
            &&& object_name(name).drop_first() == name
        },
        forall|k: int|
            0 <= k < name.len() ==> #[trigger] object_name(name)[object_name(name).len() - name.len()
                + k] == name[k],
{
    if !(name.len() > 0 && name[0] == NAME_PREFIX) {
        assert(object_name(name).drop_first() =~= name);
    }
}

/// The bytes of the POSIX object name under which the region `name` is
/// created or attached: a leading `/` is added when absent. A name holding a
/// NUL byte cannot be passed to the operating system and is refused with
/// `ShmOpenFailed("Invalid SHM name")`.
pub fn shm_object_name(name: &str) -> (r: Result<Vec<u8>, CscpError>)
    ensures
        match r {
            Ok(bytes) => !has_nul(name.spec_bytes()) && bytes@ == object_name(name.spec_bytes()),
            Err(e) => {
                &&& has_nul(name.spec_bytes())
                &&& e matches CscpError::ShmOpenFailed(msg)
                &&& msg@ == invalid_name_message()
            },
        },
{
    let src = name.as_bytes();
    let mut out: Vec<u8> = Vec::new();
    let prefixed = src.len() > 0 && src[0] == NAME_PREFIX;
    if !prefixed {
        out.push(NAME_PREFIX);
    }
    let ghost start = out@;
    let mut i: usize = 0;
    while i < src.len()
        invariant
            src@ == name.spec_bytes(),
            i <= src@.len(),
            out@ == start + src@.subrange(0, i as int),
            forall|j: int| 0 <= j < i ==> src@[j] != 0,
        decreases src@.len() - i,
    {
        if src[i] == 0 {
            proof {
                reveal_strlit("Invalid SHM name");
            }
            return Err(CscpError::ShmOpenFailed(String::from_str("Invalid SHM name")));
        }
        out.push(src[i]);
        i = i + 1;
        assert(out@ =~= start + src@.subrange(0, i as int));
    }
    assert(src@.subrange(0, src@.len() as int) =~= src@);
    proof {
        if !prefixed {
            assert(out@ =~= seq![NAME_PREFIX] + src@);
        }
    }
    Ok(out)
}

} // verus!
