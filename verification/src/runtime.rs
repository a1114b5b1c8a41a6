//! Choice of the script runtime for a mod, and the messages that scripts log.
use vstd::prelude::*;
use crate::text::{concat, decode_utf8_bytes};
use vstd::string::StrSliceExecFns;

verus! {

/// Script type.
#[derive(Debug, Clone, Copy, PartialEq, Eq, Structural)]
pub enum ScriptType {
    Lua,
    JavaScript,
}

impl ScriptType {
    /// The name of the script type: "Lua" or "JavaScript".
    pub fn name(&self) -> (r: String)
        ensures
            r@ == match self {
                ScriptType::Lua => "Lua"@,
                ScriptType::JavaScript => "JavaScript"@,
            },
    {
        match self {
            ScriptType::Lua => crate::text::copy_str("Lua"),
            ScriptType::JavaScript => crate::text::copy_str("JavaScript"),
        }
    }
}

/// Why no runtime can run a mod.
#[derive(Debug, PartialEq, Eq, Structural)]
pub enum RuntimeError {
    /// The mod has a mod.js, and this build runs no JavaScript.
    JavaScriptNotEnabled,
    /// The mod has neither mod.lua nor mod.js.
    NoScript,
}

/// Unit type that picks the runtime for a mod.
pub struct RuntimeFactory;

impl RuntimeFactory {
    /// The runtime for a mod directory: Lua when it has a mod.lua, otherwise
    /// JavaScript when it has a mod.js (an error when this build runs no
    /// JavaScript), otherwise an error.
    pub fn select_runtime(has_lua_script: bool, has_js_script: bool, js_enabled: bool) -> (r:
        Result<ScriptType, RuntimeError>)
        ensures
            has_lua_script ==> r == Ok::<ScriptType, RuntimeError>(ScriptType::Lua),
            !has_lua_script && has_js_script && js_enabled ==> r == Ok::<ScriptType, RuntimeError>(
                ScriptType::JavaScript,
            ),
            !has_lua_script && has_js_script && !js_enabled ==> r == Err::<ScriptType, RuntimeError>(
                RuntimeError::JavaScriptNotEnabled,
            ),
            !has_lua_script && !has_js_script ==> r == Err::<ScriptType, RuntimeError>(
                RuntimeError::NoScript,
            ),
    {
        if has_lua_script {
            Ok(ScriptType::Lua)
        } else if has_js_script {
            if js_enabled {
                Ok(ScriptType::JavaScript)
            } else {
                Err(RuntimeError::JavaScriptNotEnabled)
            }
        } else {
            Err(RuntimeError::NoScript)
        }
    }
}

/// The version of the mod API that scripts see, as (major, minor, patch).
pub fn full_version() -> (r: (u32, u32, u32))
    ensures
        r == (1u32, 5u32, 0u32),
{
    (1, 5, 0)
}

/// The lines that scripts log; each level is logged as "[MOD] " and the message.
pub struct ConsoleApi;

impl ConsoleApi {
    /// The line logged at info level.
    pub fn log(msg: &str) -> (r: String)
        ensures
            r@ == "[MOD] "@ + msg@,
    {
        concat("[MOD] ", msg)
    }

    /// The line logged at debug level.
    pub fn debug(msg: &str) -> (r: String)
        ensures
            r@ == "[MOD] "@ + msg@,
    {
        concat("[MOD] ", msg)
    }

    /// The line logged at warning level.
    pub fn warn(msg: &str) -> (r: String)
        ensures
            r@ == "[MOD] "@ + msg@,
    {
        concat("[MOD] ", msg)
    }

    /// The line logged at error level.
    pub fn error(msg: &str) -> (r: String)
        ensures
            r@ == "[MOD] "@ + msg@,
    {
        concat("[MOD] ", msg)
    }
}

/// Why text could not be read.
#[derive(Debug, PartialEq, Eq, Structural)]
pub enum TextError {
    /// The bytes are not UTF-8.
    InvalidUtf8,
}

/// Unit type for plain text files.
pub struct TextHandler;

impl TextHandler {
    /// The text that bytes encode, which must be UTF-8.
    pub fn decode(content: &[u8]) -> (r: Result<String, TextError>)
        ensures
            vstd::utf8::valid_utf8(content@) ==> (r matches Ok(t) && t@ == vstd::utf8::decode_utf8(
                content@,
            )),
            !vstd::utf8::valid_utf8(content@) ==> r == Err::<String, TextError>(
                TextError::InvalidUtf8,
            ),
    {
        match decode_utf8_bytes(content) {
            Some(t) => Ok(t),
            None => Err(TextError::InvalidUtf8),
        }
    }

    /// The UTF-8 bytes of a text.
    pub fn encode(text: &str) -> (r: Vec<u8>)
        ensures
            r@ == vstd::utf8::encode_utf8(text@),
    {
        text.as_bytes_vec()
    }
}

} // verus!
