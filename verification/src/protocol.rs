//! The control-plane wire protocol: scan requests arrive as text frames of
//! the form `v1;<repository-id>;<function-id>[,<function-id>...]`, with `*`
//! standing for "all functions". Anything else is rejected.

use vstd::prelude::*;
use vstd::string::*;

use crate::text::{
    chars_eq_str, chars_of, spec_split, spec_trim, split_chars, string_from_chars, trim_chars,
    lemma_split_len,
};

verus! {

/// One frame received on the control-plane socket.
#[derive(Debug, Clone, PartialEq)]
pub enum Frame {
    Text(String),
    Binary(Vec<u8>),
    Ping(Vec<u8>),
    Pong(Vec<u8>),
    Close,
}

/// A decoded scan request: which repository to scan with which functions.
#[derive(Debug, Clone, PartialEq)]
pub struct ScanRequest {
    pub version: String,
    pub repositories: Vec<String>,
    pub functions: Vec<String>,
}

/// Why a frame was rejected by the decoder.
#[derive(Debug, Clone, PartialEq, Eq)]
pub enum DecodeError {
    /// The frame is not a text frame.
    NotText,
    /// The text does not have exactly three `;`-separated components.
    WrongComponentCount,
    /// The first component is not the literal `v1`.
    UnknownVersion,
    /// The second component is empty once trimmed.
    EmptyRepository,
    /// The third component is empty once trimmed.
    EmptyFunctions,
}

/// The payload of a text frame, if the frame is one.
pub open spec fn frame_text(f: Frame) -> Option<Seq<char>> {
    match f {
        Frame::Text(t) => Some(t@),
        _ => None,
    }
}

/// The `;`-separated components of a request text.
pub open spec fn request_parts(t: Seq<char>) -> Seq<Seq<char>> {
    spec_split(t, ';')
}

/// Whether a request text is well-formed: three components, version `v1`,
/// and a non-empty repository and function component after trimming.
pub open spec fn valid_request_text(t: Seq<char>) -> bool {
    let p = request_parts(t);
    &&& p.len() == 3
    &&& p[0] == "v1"@
    &&& spec_trim(p[1]).len() > 0
    &&& spec_trim(p[2]).len() > 0
}

/// The repository component of a well-formed request text.
pub open spec fn spec_request_repository(t: Seq<char>) -> Seq<char> {
    spec_trim(request_parts(t)[1])
}

/// The function identifiers of a well-formed request text, in wire order.
pub open spec fn spec_request_functions(t: Seq<char>) -> Seq<Seq<char>> {
    spec_split(spec_trim(request_parts(t)[2]), ',')
}

/// Decodes a control-plane frame into a scan request.
///
/// Exactly the text frames whose payload is well-formed decode; every
/// decoded request carries version `v1`, one repository identifier and at
/// least one function identifier.
pub fn decode_message(raw_message: Frame) -> (r: Result<ScanRequest, DecodeError>)
    ensures
        match r {
            Ok(req) => {
                &&& frame_text(raw_message) is Some
                &&& valid_request_text(frame_text(raw_message)->0)
                &&& req.version@ == "v1"@
                &&& req.repositories@.map_values(|s: String| s@) == seq![
                    spec_request_repository(frame_text(raw_message)->0),
                ]
                &&& req.functions@.map_values(|s: String| s@) == spec_request_functions(
                    frame_text(raw_message)->0,
                )
                &&& req.repositories@.len() == 1
                &&& req.functions@.len() >= 1
            },
            Err(e) => match e {
                DecodeError::NotText => frame_text(raw_message) is None,
                DecodeError::WrongComponentCount => {
                    &&& frame_text(raw_message) is Some
                    &&& request_parts(frame_text(raw_message)->0).len() != 3
                },
                DecodeError::UnknownVersion => {
                    let t = frame_text(raw_message)->0;
                    &&& frame_text(raw_message) is Some
                    &&& request_parts(t).len() == 3
                    &&& request_parts(t)[0] != "v1"@
                },
                DecodeError::EmptyRepository => {
                    let t = frame_text(raw_message)->0;
                    &&& frame_text(raw_message) is Some
                    &&& request_parts(t).len() == 3
                    &&& request_parts(t)[0] == "v1"@
                    &&& spec_trim(request_parts(t)[1]).len() == 0
                },
                DecodeError::EmptyFunctions => {
                    let t = frame_text(raw_message)->0;
                    &&& frame_text(raw_message) is Some
                    &&& request_parts(t).len() == 3
                    &&& request_parts(t)[0] == "v1"@
                    &&& spec_trim(request_parts(t)[1]).len() > 0
                    &&& spec_trim(request_parts(t)[2]).len() == 0
                },
            },
        },
{
    let text: &String = match &raw_message {
        Frame::Text(t) => t,
        _ => {
            return Err(DecodeError::NotText);
        },
    };
    let ghost t = text@;
    let chars = chars_of(text.as_str());
    let parts = split_chars(&chars, ';');
    proof {
        assert(parts@.map_values(|p: Vec<char>| p@) == request_parts(t));
    }
    if parts.len() != 3 {
        return Err(DecodeError::WrongComponentCount);
    }
    proof {
        assert(parts@.map_values(|p: Vec<char>| p@)[0] == parts@[0]@);
        assert(parts@.map_values(|p: Vec<char>| p@)[1] == parts@[1]@);
        assert(parts@.map_values(|p: Vec<char>| p@)[2] == parts@[2]@);
    }
    if !chars_eq_str(&parts[0], "v1") {
        return Err(DecodeError::UnknownVersion);
    }
    let repository = trim_chars(&parts[1]);
    if repository.len() == 0 {
        return Err(DecodeError::EmptyRepository);
    }
    let function_text = trim_chars(&parts[2]);
    if function_text.len() == 0 {
        return Err(DecodeError::EmptyFunctions);
    }
    let function_parts = split_chars(&function_text, ',');
    let mut functions: Vec<String> = Vec::new();
    let mut i: usize = 0;
    while i < function_parts.len()
        invariant
            i <= function_parts.len(),
            functions@.len() == i,
            forall|k: int| 0 <= k < i ==> functions@[k]@ == function_parts@[k]@,
        decreases function_parts.len() - i,
    {
        functions.push(string_from_chars(&function_parts[i]));
        i = i + 1;
    }
    proof {
        assert(functions@.map_values(|s: String| s@) =~= function_parts@.map_values(
            |p: Vec<char>| p@,
        ));
        lemma_split_len(function_text@, ',');
    }
    let mut repositories: Vec<String> = Vec::new();
    repositories.push(string_from_chars(&repository));
    proof {
        assert(repositories@.map_values(|s: String| s@) =~= seq![spec_request_repository(t)]);
    }
    let version: String = String::from_str("v1");
    Ok(ScanRequest { version, repositories, functions })
}

} // verus!
