//! The greeting of the sample mTLS server.

use vstd::prelude::*;
use vstd::string::{StrSliceExecFns, StringExecFns};
use crate::text::{lossy_string, str_chars, trim, trim_range, utf8_lossy};

verus! {

/// The name a client sent: the received bytes read as UTF-8 (invalid
/// sequences replaced), with surrounding white space trimmed.
pub fn greeting_name(received: &[u8]) -> (name: String)
    ensures
        name@ == trim(utf8_lossy(received@)),
{
    let text = lossy_string(received);
    let chars = str_chars(text.as_str());
    let (a, b) = trim_range(&chars, 0, chars.len());
    assert(chars@.subrange(0, chars@.len() as int) =~= chars@);
    text.as_str().substring_char(a, b).to_owned()
}

/// The server's answer to a client called `name`: `hello, {name}` and a newline.
pub fn greeting(name: &str) -> (g: String)
    ensures
        g@ == "hello, "@ + name@ + "\n"@,
{
    let mut g = "hello, ".to_owned();
    g.append(name);
    g.append("\n");
    g
}

} // verus!
