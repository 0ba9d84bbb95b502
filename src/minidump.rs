use vstd::prelude::*;
use vstd::string::StringExecFns;
use crate::text::{hex_text, push_char};

verus! {

/// Relies on the `uuid` crate: `Uuid::from_bytes(b).to_simple()` displays as
/// the 32 lower-case hex digits of the 16 bytes in order.
#[verifier::external_body]
fn uuid_simple_string(bytes: [u8; 16]) -> (r: String)
    ensures
        r@ == hex_text(bytes@, false),
{
    uuid::Uuid::from_bytes(bytes).to_simple().to_string()
}

/// Where a dump is written.
pub enum MinidumpOutput {
    Path(String),
}

/// `.dmp`
pub open spec fn dmp_extension() -> Seq<char> {
    seq!['.', 'd', 'm', 'p']
}

/// The path of the dump named by `uuid` in directory `base`: the directory,
/// a separator unless it is empty or ends in one, the UUID's 32 lower-case
/// hex digits and `.dmp`.
pub open spec fn dump_path(base: Seq<char>, uuid: Seq<u8>) -> Seq<char> {
    let sep = if base.len() == 0 || base.last() == '/' { Seq::<char>::empty() } else { seq!['/'] };
    base + sep + hex_text(uuid, false) + dmp_extension()
}

impl MinidumpOutput {
    /// The output for the dump named by `uuid` in directory `base`.
    pub fn with_uuid(base: &str, uuid: [u8; 16]) -> (r: MinidumpOutput)
        ensures
            match r {
                MinidumpOutput::Path(p) => p@ == dump_path(base@, uuid@),
            },
    {
        let mut path = base.to_owned();
        let n = base.unicode_len();
        if n > 0 && base.get_char(n - 1) != '/' {
            push_char(&mut path, '/');
        }
        let name = uuid_simple_string(uuid);
        path.append(name.as_str());
        push_char(&mut path, '.');
        push_char(&mut path, 'd');
        push_char(&mut path, 'm');
        push_char(&mut path, 'p');
        assert(path@ =~= dump_path(base@, uuid@));
        MinidumpOutput::Path(path)
    }

    /// The path the dump is written to.
    pub fn path(&self) -> (r: &String)
        ensures
            match self {
                MinidumpOutput::Path(p) => r == p,
            },
    {
        match self {
            MinidumpOutput::Path(p) => p,
        }
    }
}

} // verus!
