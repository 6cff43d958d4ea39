//! What is settled before any socket is bound: the directory that will hold
//! the sockets, and the file that each engine variant is served on.

use vstd::prelude::*;
use vstd::string::{StrSliceExecFns, StringExecFns};
use vstd::utf8::{decode_utf8, valid_utf8};

use crate::engine::GptEngine;
use crate::text::decode_text;

verus! {

/// The permission bits of a socket file: read and write for the owner and
/// the group, nothing else.
pub const SOCKET_MODE: u32 = 0o660;

/// The socket mode lets owner and group read and write, lets nobody execute,
/// and gives the world nothing.
pub proof fn lemma_socket_mode()
    ensures
        SOCKET_MODE & 0o600 == 0o600,
        SOCKET_MODE & 0o060 == 0o060,
        SOCKET_MODE & 0o111 == 0,
        SOCKET_MODE & 0o007 == 0,
{
    assert(0o660u32 & 0o600 == 0o600) by (bit_vector);
    assert(0o660u32 & 0o060 == 0o060) by (bit_vector);
    assert(0o660u32 & 0o111 == 0) by (bit_vector);
    assert(0o660u32 & 0o007 == 0) by (bit_vector);
}

/// Whether a path, as the bytes of its name, starts at the root.
pub open spec fn is_absolute(path: Seq<u8>) -> bool {
    path.len() > 0 && path[0] == 0x2f
}

/// A directory name that ends in a slash: the name itself where it already
/// does, else the name and a slash.
pub open spec fn with_trailing_slash(dir: Seq<char>) -> Seq<char> {
    if dir.len() > 0 && dir.last() == '/' {
        dir
    } else {
        dir.push('/')
    }
}

/// Why a socket directory is refused, if it is. The checks are made in this
/// order, and the first that fails decides.
pub open spec fn configuration_fault(socket_dir: Seq<u8>, is_dir: bool, exists: bool) -> Option<
    Seq<char>,
> {
    if !is_absolute(socket_dir) {
        Some("Socket directory must be an absolute path!"@)
    } else if !is_dir {
        Some("Socket directory must be a directory!"@)
    } else if !exists {
        Some("Socket directory must exist!"@)
    } else if !valid_utf8(socket_dir) {
        Some("Socket directory must be a valid UTF-8 string!"@)
    } else {
        None
    }
}

/// Validates the configuration. `socket_dir` is the directory's name as
/// bytes; `is_dir` and `exists` say what the file system told of it. On
/// success the directory comes back as text that ends in a slash, ready to
/// have a file name appended, together with the credential, untouched.
pub fn get_configuration(socket_dir: Vec<u8>, is_dir: bool, exists: bool, token: String) -> (r:
    Result<(String, String), String>)
    ensures
        match configuration_fault(socket_dir@, is_dir, exists) {
            Some(fault) => r is Err && r->Err_0@ == fault,
            None => r is Ok && r->Ok_0.0@ == with_trailing_slash(decode_utf8(socket_dir@))
                && r->Ok_0.1 == token,
        },
{
    if socket_dir.len() == 0 || socket_dir[0] != 0x2f {
        return Err(String::from_str("Socket directory must be an absolute path!"));
    }
    if !is_dir {
        return Err(String::from_str("Socket directory must be a directory!"));
    }
    if !exists {
        return Err(String::from_str("Socket directory must exist!"));
    }
    let mut dir = match decode_text(socket_dir) {
        Ok(dir) => dir,
        Err(_) => {
            return Err(String::from_str("Socket directory must be a valid UTF-8 string!"));
        },
    };
    let len = dir.as_str().unicode_len();
    if len == 0 || dir.as_str().get_char(len - 1) != '/' {
        proof {
            reveal_strlit("/");
        }
        dir.append("/");
        assert(dir@ =~= with_trailing_slash(decode_utf8(socket_dir@)));
    }
    Ok((dir, token))
}

/// The file name of the socket that serves a variant.
pub open spec fn socket_name(engine: GptEngine) -> Seq<char> {
    match engine {
        GptEngine::Gpt35Turbo(_) => "gpt3_5_turbo.sock"@,
        GptEngine::Gpt4(_) => "gpt4.sock"@,
        GptEngine::Gpt4_32k(_) => "gpt4_32k.sock"@,
    }
}

/// The path of the socket that serves `engine` under `socket_dir`: the
/// directory, which ends in a slash, and the variant's file name.
pub fn socket_file(socket_dir: &str, engine: &GptEngine) -> (r: String)
    ensures
        r@ == socket_dir@ + socket_name(*engine),
{
    let name = match engine {
        GptEngine::Gpt35Turbo(_) => "gpt3_5_turbo.sock",
        GptEngine::Gpt4(_) => "gpt4.sock",
        GptEngine::Gpt4_32k(_) => "gpt4_32k.sock",
    };
    String::from_str(socket_dir).concat(name)
}

/// The variants that are served, in the order in which their sockets are
/// bound, each with the same credential.
pub fn served_engines(token: String) -> (r: Vec<GptEngine>)
    ensures
        r@.len() == 3,
        r@[0] == GptEngine::Gpt4_32k(token),
        r@[1] == GptEngine::Gpt4(token),
        r@[2] == GptEngine::Gpt35Turbo(token),
{
    let mut engines: Vec<GptEngine> = Vec::new();
    engines.push(GptEngine::Gpt4_32k(token.clone()));
    engines.push(GptEngine::Gpt4(token.clone()));
    engines.push(GptEngine::Gpt35Turbo(token));
    engines
}

/// Whether two values are the same variant, whatever credential they carry.
pub open spec fn same_variant(a: GptEngine, b: GptEngine) -> bool {
    match (a, b) {
        (GptEngine::Gpt35Turbo(_), GptEngine::Gpt35Turbo(_)) => true,
        (GptEngine::Gpt4(_), GptEngine::Gpt4(_)) => true,
        (GptEngine::Gpt4_32k(_), GptEngine::Gpt4_32k(_)) => true,
        _ => false,
    }
}

/// No two variants share a socket: under one directory the paths of
/// different variants differ.
pub proof fn lemma_socket_files_differ(socket_dir: Seq<char>, a: GptEngine, b: GptEngine)
    requires
        !same_variant(a, b),
    ensures
        socket_dir + socket_name(a) != socket_dir + socket_name(b),
{
    reveal_strlit("gpt3_5_turbo.sock");
    reveal_strlit("gpt4.sock");
    reveal_strlit("gpt4_32k.sock");
    assert("gpt3_5_turbo.sock"@.len() == 17);
    assert("gpt4.sock"@.len() == 9);
    assert("gpt4_32k.sock"@.len() == 13);
    assert((socket_dir + socket_name(a)).len() == socket_dir.len() + socket_name(a).len());
    assert((socket_dir + socket_name(b)).len() == socket_dir.len() + socket_name(b).len());
}

} // verus!
