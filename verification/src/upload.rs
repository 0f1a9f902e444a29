//! File uploads and outbound email: the records handed across the I/O
//! boundary, and the decoding and path checks that gate an upload.

use vstd::prelude::*;
use vstd::string::{StrSliceExecFns, StringExecFns};

use crate::error::Error;

verus! {

/// An outbound email, ready for a mail transport to send.
pub struct Email<'e> {
    pub from_name: &'e str,
    pub from_address: &'e str,
    pub to_name: &'e str,
    pub to_address: &'e str,
    pub subject: &'e str,
    pub content: &'e str,
}

/// An uploaded file: a target path and base64-encoded content.
#[derive(Debug, PartialEq, Eq, Clone)]
pub struct FileUpload {
    pub path: String,
    pub content: String,
}

#[verifier::external_type_specification]
#[verifier::external_body]
pub struct ExDecodeError(base64::DecodeError);

/// What a string decodes to under the standard base64 alphabet, or `None`
/// where the decoder rejects it.
pub uninterp spec fn base64_decoding(s: Seq<char>) -> Option<Seq<u8>>;

/// Relies on base64's standard-alphabet `Engine::decode`: what a string
/// decodes to, or that it is rejected, depends on the string alone.
#[verifier::external_body]
fn decode_base64(content: &str) -> (r: Result<Vec<u8>, base64::DecodeError>)
    ensures
        match r {
            Ok(v) => base64_decoding(content@) == Some(v@),
            Err(_) => base64_decoding(content@) is None,
        },
{
    base64::Engine::decode(&base64::engine::general_purpose::STANDARD, content)
}

/// Where the bare file name starts: right after the last `/`, or at the
/// beginning when the path has none.
pub open spec fn file_name_start(path: Seq<char>) -> int
    decreases path.len(),
{
    if path.len() == 0 {
        0
    } else if path.last() == '/' {
        path.len() as int
    } else {
        file_name_start(path.drop_last())
    }
}

/// The bare file name of the path: everything after the last `/`.
pub open spec fn file_name_of(path: Seq<char>) -> Seq<char> {
    path.subrange(file_name_start(path), path.len() as int)
}

/// The name carries an extension: a dot somewhere after its first
/// character.
pub open spec fn has_extension(name: Seq<char>) -> bool {
    exists|i: int| 1 <= i < name.len() && name[i] == '.'
}

/// The bare file name a music path stores under: everything after the last
/// `/`, which must be nonempty and carry an extension.
#[verifier::loop_isolation(false)]
pub fn music_file_name(path: &str) -> (r: Result<String, Error>)
    ensures
        r is Ok <==> (file_name_of(path@).len() > 0 && has_extension(file_name_of(path@))),
        r matches Ok(n) ==> n@ == file_name_of(path@),
        r matches Err(e) ==> e is BadRequest,
{
    let len = path.unicode_len();
    let mut start: usize = 0;
    for i in 0..len
        invariant
            start <= i,
            start as int == file_name_start(path@.take(i as int)),
    {
        proof {
            assert(path@.take(i as int + 1).drop_last() =~= path@.take(i as int));
        }
        if path.get_char(i) == '/' {
            start = i + 1;
        }
    }
    proof {
        assert(path@.take(len as int) =~= path@);
    }
    if start == len {
        return Err(
            Error::BadRequest(String::from_str("file name must end in an absolute path")),
        );
    }
    let ghost name = file_name_of(path@);
    let mut dotted = false;
    let mut j: usize = start + 1;
    while j < len
        invariant
            start < j || (start + 1 == j && start < len),
            start + 1 <= j <= len,
            dotted ==> has_extension(name),
            !dotted ==> forall|k: int| 1 <= k < j - start ==> name[k] != '.',
        decreases len - j,
    {
        proof {
            assert(name[j - start] == path@[j as int]);
        }
        if path.get_char(j) == '.' {
            dotted = true;
        }
        j = j + 1;
    }
    if !dotted {
        return Err(Error::BadRequest(String::from_str("file must have an extension")));
    }
    let bare = path.substring_char(start, len);
    Ok(String::from_str(bare))
}

impl FileUpload {
    /// Decode the payload and validate the target path: the decoded bytes
    /// and the bare file name to store them under. An undecodable payload,
    /// a path without a file name, and a name without an extension are all
    /// rejected.
    pub fn prepare(&self) -> (r: Result<(Vec<u8>, String), Error>)
        ensures
            r is Ok <==> (base64_decoding(self.content@) is Some && file_name_of(self.path@).len()
                > 0 && has_extension(file_name_of(self.path@))),
            r matches Ok(p) ==> base64_decoding(self.content@) == Some(p.0@) && p.1@
                == file_name_of(self.path@),
            r matches Err(e) ==> e is BadRequest,
    {
        let bytes = match decode_base64(self.content.as_str()) {
            Ok(v) => v,
            Err(_) => {
                return Err(
                    Error::BadRequest(String::from_str("couldn't decode file as base64")),
                );
            },
        };
        let name = match music_file_name(self.path.as_str()) {
            Ok(n) => n,
            Err(e) => {
                return Err(e);
            },
        };
        Ok((bytes, name))
    }
}

} // verus!
