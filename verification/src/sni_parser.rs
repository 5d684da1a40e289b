//! An early, unfinished form of the ClientHello scanner: it reads the
//! fixed prefix and the length fields up to the first extension, and reads
//! the first extension's type and length without ever advancing past it.
use vstd::prelude::*;
use crate::fragmenting::sni_parser::{be16_at, extensions_start};

verus! {

/// Whether the first extension's type and length fields lie inside `s`.
/// On such a buffer the unfinished scanner keeps reading the same extension
/// forever and never returns.
pub open spec fn first_extension_readable(s: Seq<u8>) -> bool {
    match extensions_start(s) {
        Some(p) => p + 3 < s.len(),
        None => false,
    }
}

/// Reads the ClientHello length fields up to the first extension and that
/// extension's type and length. It returns `None` as soon as the buffer ends
/// before one of them; it has no other outcome, since once all of them are
/// read it goes on reading the same extension without end, so those buffers
/// are left out.
#[allow(non_snake_case)]
pub fn find_SNI(buf: &[u8]) -> (r: Option<usize>)
    requires
        buf@.len() <= isize::MAX,
        !first_extension_readable(buf@),
    ensures
        r is None,
{
    let pos = match crate::fragmenting::sni_parser::find_extensions(buf) {
        Some(p) => p,
        None => return None,
    };
    let len = buf.len();
    if len - pos <= 3 {
        return None;
    }
    let _ext_type = (buf[pos] as usize) * 256 + (buf[pos + 1] as usize);
    let _ext_len = (buf[pos + 2] as usize) * 256 + (buf[pos + 3] as usize);
    proof {
        assert(_ext_type == be16_at(buf@, pos as int));
        assert(_ext_len == be16_at(buf@, pos + 2));
        assert(first_extension_readable(buf@));
    }
    None
}

} // verus!
