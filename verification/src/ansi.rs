//! Removal of ANSI CSI escape sequences (`ESC [ params final`) from text.
use vstd::prelude::*;


verus! {

/// A CSI parameter or intermediate byte (`0x20..=0x3f`).
pub open spec fn is_param_char(c: char) -> bool {
    '\x20' <= c && c <= '\x3f'
}

/// A CSI final byte (`0x40..=0x7e`).
pub open spec fn is_final_char(c: char) -> bool {
    '\x40' <= c && c <= '\x7e'
}

/// The position after the run of parameter characters that starts at `i`.
pub open spec fn param_run(s: Seq<char>, i: int) -> int
    decreases s.len() - i,
{
    if 0 <= i < s.len() && is_param_char(s[i]) {
        param_run(s, i + 1)
    } else {
        i
    }
}

/// The end of the escape sequence `\x1b\[[\x20-\x3f]*[\x40-\x7e]` that starts at `i`, if one does.
pub open spec fn csi_end(s: Seq<char>, i: int) -> Option<int> {
    if 0 <= i && i + 1 < s.len() && s[i] == '\x1b' && s[i + 1] == '[' {
        let j = param_run(s, i + 2);
        if j < s.len() && is_final_char(s[j]) {
            Some(j + 1)
        } else {
            None
        }
    } else {
        None
    }
}

/// `s` from position `i` on, with every escape sequence removed, scanning left to right.
pub open spec fn strip_csi_from(s: Seq<char>, i: int) -> Seq<char>
    decreases s.len() - i,
{
    if i < 0 || i >= s.len() {
        Seq::empty()
    } else {
        match csi_end(s, i) {
            Some(e) => if e > i {
                strip_csi_from(s, e)
            } else {
                Seq::empty()
            },
            None => seq![s[i]] + strip_csi_from(s, i + 1),
        }
    }
}

/// `s` with every CSI escape sequence removed.
pub open spec fn strip_csi(s: Seq<char>) -> Seq<char> {
    strip_csi_from(s, 0)
}

#[verifier::external_type_specification]
#[verifier::external_body]
pub struct ExRegex(regex::Regex);

/// The pattern of a CSI escape sequence, compiled by `regex`.
pub struct CsiPattern {
    re: regex::Regex,
}

impl CsiPattern {
    /// Calls `regex::Regex::new` on `\x1b\[[\x20-\x3f]*[\x40-\x7e]`, a valid pattern,
    /// so the `unwrap` does not fail. Nothing is claimed.
    #[verifier::external_body]
    pub(crate) fn new() -> (r: CsiPattern) {
        CsiPattern { re: regex::Regex::new(r"\x1b\[[\x20-\x3f]*[\x40-\x7e]").unwrap() }
    }

    /// Calls `regex::Regex::replace_all` with an empty replacement. Claimed, from
    /// regex's documentation of `replace_all` (every non-overlapping match, found left
    /// to right, leftmost first) and of the pattern, whose parameter and final
    /// characters are disjoint classes: the result is `strip_csi(input)`.
    #[verifier::external_body]
    pub(crate) fn strip(&self, input: &str) -> (r: String)
        ensures
            r@ == strip_csi(input@),
    {
        self.re.replace_all(input, "").into_owned()
    }
}

/// Removes ANSI CSI escape sequences (colours, cursor controls, ...) from `input`.
pub fn strip_ansi_escapes(input: &str) -> (r: String)
    ensures
        r@ == strip_csi(input@),
{
    let pattern = CsiPattern::new();
    pattern.strip(input)
}

} // verus!
