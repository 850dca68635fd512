//! User configuration: the viewport height and the key bindings, and the
//! checks that turn binding keys spelled `c-<letter>` into control bytes.

use vstd::prelude::*;
use vstd::string::StringSliceAdditionalSpecFns;
use vstd::utf8::encode_utf8;

verus! {

/// Why a binding key was rejected.
#[derive(Debug, Clone, Copy, PartialEq, Eq, Structural)]
pub enum KeyError {
    /// The key does not start with `c-`.
    Prefix,
    /// More or less than one byte follows `c-`.
    Length,
    /// The byte after `c-` is not a lowercase letter `a`-`z`.
    Letter,
}

/// A configuration that cannot be used.
#[derive(Debug)]
pub enum ConfigError {
    /// A binding key is malformed.
    InvalidKey { key: String, reason: KeyError },
    /// A binding names an action that does not exist.
    UnknownAction(String),
}

/// How a binding key spelled as `k` is read: the control byte of `c-<letter>`
/// (the letter's code minus 0x60), or why it is rejected.
pub open spec fn key_code(k: Seq<u8>) -> Result<u8, KeyError> {
    if !(k.len() >= 2 && k[0] == 0x63 && k[1] == 0x2d) {
        Err(KeyError::Prefix)
    } else if k.len() != 3 {
        Err(KeyError::Length)
    } else if !(0x61 <= k[2] <= 0x7a) {
        Err(KeyError::Letter)
    } else {
        Ok((k[2] - 0x60) as u8)
    }
}

/// The UTF-8 bytes of a string.
pub open spec fn str_bytes(s: Seq<char>) -> Seq<u8> {
    encode_utf8(s)
}

/// Window settings.
pub struct WindowConfig {
    /// Rows of the viewport: above zero an absolute count, clamped to the
    /// terminal; zero or below, that many rows fewer than the terminal has.
    pub height: i64,
}

impl Default for WindowConfig {
    fn default() -> (r: Self)
        ensures
            r.height == 20,
    {
        WindowConfig { height: 20 }
    }
}

/// The whole configuration.
pub struct Config {
    pub window: WindowConfig,
    /// Key bindings as `(key, action name)` pairs, in priority order.
    pub bindings: Vec<(String, String)>,
}

impl Default for Config {
    fn default() -> (r: Self)
        ensures
            r.window.height == 20,
            r.bindings@.len() == 0,
    {
        Config { window: WindowConfig::default(), bindings: Vec::new() }
    }
}

/// Reads the binding keys of `bindings`, each spelled `c-<letter>`, as
/// control bytes. The first malformed key, in order, is reported.
pub fn parse_bindings(bindings: &Vec<(String, String)>) -> (r: Result<Vec<(Vec<u8>, String)>, ConfigError>)
    ensures
        r is Ok <==> forall|i: int| 0 <= i < bindings@.len() ==> (#[trigger] key_code(str_bytes(bindings@[i].0@))) is Ok,
        r matches Ok(v) ==> v@.len() == bindings@.len() && forall|i: int| 0 <= i < bindings@.len() ==> {
            &&& (#[trigger] v@[i]).0@ == seq![key_code(str_bytes(bindings@[i].0@))->Ok_0]
            &&& v@[i].1@ == bindings@[i].1@
        },
        r matches Err(e) ==> exists|i: int| 0 <= i < bindings@.len() && {
            &&& forall|j: int| 0 <= j < i ==> (#[trigger] key_code(str_bytes(bindings@[j].0@))) is Ok
            &&& #[trigger] key_code(str_bytes(bindings@[i].0@)) matches Err(reason)
            &&& e matches ConfigError::InvalidKey { key, reason: rr } && key@ == bindings@[i].0@ && rr == reason
        },
{
    let mut out: Vec<(Vec<u8>, String)> = Vec::new();
    let mut i: usize = 0;
    while i < bindings.len()
        invariant
            i <= bindings@.len(),
            out@.len() == i,
            forall|j: int| 0 <= j < i ==> (#[trigger] key_code(str_bytes(bindings@[j].0@))) is Ok,
            forall|j: int| 0 <= j < i ==> {
                &&& (#[trigger] out@[j]).0@ == seq![key_code(str_bytes(bindings@[j].0@))->Ok_0]
                &&& out@[j].1@ == bindings@[j].1@
            },
        decreases bindings@.len() - i,
    {
        let k = bindings[i].0.as_str().as_bytes();
        let reason: KeyError;
        if !(k.len() >= 2 && k[0] == 0x63 && k[1] == 0x2d) {
            reason = KeyError::Prefix;
        } else if k.len() != 3 {
            reason = KeyError::Length;
        } else if !(0x61 <= k[2] && k[2] <= 0x7a) {
            reason = KeyError::Letter;
        } else {
            proof {
                assert(k@ == str_bytes(bindings@[i as int].0@));
            }
            let code: u8 = k[2] - 0x60;
            out.push((vec![code], bindings[i].1.clone()));
            i = i + 1;
            continue;
        }
        proof {
            assert(k@ == str_bytes(bindings@[i as int].0@));
            assert(key_code(str_bytes(bindings@[i as int].0@)) == Err::<u8, KeyError>(reason));
        }
        return Err(ConfigError::InvalidKey { key: bindings[i].0.clone(), reason });
    }
    Ok(out)
}

/// The viewport height for a configured `height` on a terminal of
/// `max_height` rows: a positive value is clamped to the terminal, any other
/// counts rows from the bottom and is clamped to at least one row.
pub fn window_height(height: i64, max_height: u16) -> (r: usize)
    requires
        max_height >= 1,
    ensures
        r == (if height > 0 {
            if height < max_height { height as int } else { max_height as int }
        } else {
            if max_height + height > 1 { max_height + height } else { 1 }
        }),
        1 <= r <= max_height,
{
    if height > 0 {
        if height < max_height as i64 {
            height as usize
        } else {
            max_height as usize
        }
    } else {
        let rows: i64 = max_height as i64 + height;
        if rows > 1 {
            rows as usize
        } else {
            1
        }
    }
}

} // verus!
