//! Key-pair escape mappings: the editor modes they apply to and what a
//! completed pair feeds back.

use vstd::prelude::*;
use vstd::string::StringExecFns;

verus! {

/// The editor modes a mapping can live in.
#[derive(Clone, Copy, PartialEq, Eq, Structural, Debug)]
pub enum Mode {
    I,
    C,
    T,
    V,
    S,
}

/// What a completed key pair maps to: a literal key string, or a named
/// callback.
#[derive(Clone, Debug)]
pub enum MappingValue {
    Str(String),
    Func(String),
}

impl From<String> for MappingValue {
    /// A bare string becomes a literal mapping.
    fn from(s: String) -> (r: MappingValue) {
        MappingValue::Str(s)
    }
}

impl vstd::std_specs::convert::FromSpecImpl<String> for MappingValue {
    open spec fn obeys_from_spec() -> bool {
        true
    }

    open spec fn from_spec(s: String) -> MappingValue {
        MappingValue::Str(s)
    }
}

/// One configured escape pair: in this mode, `first` then `second` feeds
/// the mapping back instead of the two keys.
pub struct KeyPair {
    pub mode: Mode,
    pub first: String,
    pub second: String,
    pub rhs: MappingValue,
}

/// What the editor should do with the key that just arrived.
pub enum KeyAction {
    /// No pair completed: insert the key literally and remember it as a
    /// possible first key.
    Record { key: String },
    /// A pair completed: undo the inserted first key (in modes that take a
    /// backspace), restore the buffer-modified flag, and feed the mapping.
    Inject { backspace: bool, was_modified: bool, rhs: MappingValue },
}

/// Whether a configured pair fires for the remembered and arriving keys.
pub open spec fn pair_matches(p: &KeyPair, first: Seq<char>, second: Seq<char>) -> bool {
    p.first@ == first && p.second@ == second
}

/// Index of the first matching pair, or the length when none matches.
pub open spec fn find_pair(ms: Seq<KeyPair>, first: Seq<char>, second: Seq<char>) -> int
    decreases ms.len(),
{
    if ms.len() == 0 {
        0
    } else if pair_matches(&ms[0], first, second) {
        0
    } else {
        1 + find_pair(ms.drop_first(), first, second)
    }
}

proof fn lemma_find_pair_is(ms: Seq<KeyPair>, first: Seq<char>, second: Seq<char>, k: int)
    requires
        0 <= k <= ms.len(),
        forall|i: int| 0 <= i < k ==> !pair_matches(&ms[i], first, second),
        k < ms.len() ==> pair_matches(&ms[k], first, second),
    ensures
        find_pair(ms, first, second) == k,
    decreases ms.len(),
{
    if k > 0 {
        lemma_find_pair_is(ms.drop_first(), first, second, k - 1);
    }
}

/// One pair's fields match the given mode, keys and literal mapping.
pub open spec fn pair_is(p: KeyPair, mode: Mode, first: Seq<char>, second: Seq<char>, rhs: Seq<char>) -> bool {
    &&& p.mode == mode
    &&& p.first@ == first
    &&& p.second@ == second
    &&& p.rhs matches MappingValue::Str(t) && t@ == rhs
}

/// The stock escape pairs: `jk` and `jj` leave insert mode, `jk` and `jj`
/// cancel the command line, and `jk` leaves terminal, visual and select
/// modes.
pub fn default_mappings() -> (r: Vec<KeyPair>)
    ensures
        r@.len() == 7,
        pair_is(r@[0], Mode::I, ("j")@, ("k")@, ("<Esc>")@),
        pair_is(r@[1], Mode::I, ("j")@, ("j")@, ("<Esc>")@),
        pair_is(r@[2], Mode::C, ("j")@, ("k")@, ("<C-c>")@),
        pair_is(r@[3], Mode::C, ("j")@, ("j")@, ("<C-c>")@),
        pair_is(r@[4], Mode::T, ("j")@, ("k")@, ("<C-\\><C-n>")@),
        pair_is(r@[5], Mode::V, ("j")@, ("k")@, ("<Esc>")@),
        pair_is(r@[6], Mode::S, ("j")@, ("k")@, ("<Esc>")@),
{
    let mut v: Vec<KeyPair> = Vec::new();
    v.push(KeyPair {
        mode: Mode::I,
        first: String::from_str("j"),
        second: String::from_str("k"),
        rhs: MappingValue::Str(String::from_str("<Esc>")),
    });
    v.push(KeyPair {
        mode: Mode::I,
        first: String::from_str("j"),
        second: String::from_str("j"),
        rhs: MappingValue::Str(String::from_str("<Esc>")),
    });
    v.push(KeyPair {
        mode: Mode::C,
        first: String::from_str("j"),
        second: String::from_str("k"),
        rhs: MappingValue::Str(String::from_str("<C-c>")),
    });
    v.push(KeyPair {
        mode: Mode::C,
        first: String::from_str("j"),
        second: String::from_str("j"),
        rhs: MappingValue::Str(String::from_str("<C-c>")),
    });
    v.push(KeyPair {
        mode: Mode::T,
        first: String::from_str("j"),
        second: String::from_str("k"),
        rhs: MappingValue::Str(String::from_str("<C-\\><C-n>")),
    });
    v.push(KeyPair {
        mode: Mode::V,
        first: String::from_str("j"),
        second: String::from_str("k"),
        rhs: MappingValue::Str(String::from_str("<Esc>")),
    });
    v.push(KeyPair {
        mode: Mode::S,
        first: String::from_str("j"),
        second: String::from_str("k"),
        rhs: MappingValue::Str(String::from_str("<Esc>")),
    });
    v
}

/// Decide what an arriving second key means, given the remembered first key
/// and the configured pairs. With nothing remembered, or with no pair that
/// fires, the key is inserted and remembered; otherwise the first matching
/// pair's mapping is fed back, with a backspace in the insert-like modes.
pub fn decide_second_key(
    recorded: &Option<String>,
    bufmodified: bool,
    mappings: &Vec<KeyPair>,
    second_key: String,
) -> (r: KeyAction)
    ensures
        recorded is None ==> (r matches KeyAction::Record { key } && key@ == second_key@),
        recorded matches Some(rec) ==> ({
            let k = find_pair(mappings@, rec@, second_key@);
            if k == mappings@.len() {
                r matches KeyAction::Record { key } && key@ == second_key@
            } else {
                r matches KeyAction::Inject { backspace, was_modified, rhs }
                    && backspace == (mappings@[k].mode is I || mappings@[k].mode is C
                    || mappings@[k].mode is T) && was_modified == bufmodified && (match mappings@[k].rhs {
                    MappingValue::Str(s) => rhs matches MappingValue::Str(t) && t@ == s@,
                    MappingValue::Func(s) => rhs matches MappingValue::Func(t) && t@ == s@,
                })
            }
        }),
{
    let rec = match recorded {
        None => {
            return KeyAction::Record { key: second_key };
        },
        Some(rec) => rec,
    };
    let n = mappings.len();
    let mut k: usize = 0;
    while k < n && !(crate::strbytes::str_eq(mappings[k].first.as_str(), rec.as_str())
        && crate::strbytes::str_eq(mappings[k].second.as_str(), second_key.as_str()))
        invariant
            k <= n == mappings@.len(),
            forall|i: int| 0 <= i < k ==> !pair_matches(&mappings@[i], rec@, second_key@),
        decreases n - k,
    {
        k += 1;
    }
    proof {
        lemma_find_pair_is(mappings@, rec@, second_key@, k as int);
    }
    if k == n {
        return KeyAction::Record { key: second_key };
    }
    let p = &mappings[k];
    let backspace = match p.mode {
        Mode::I => true,
        Mode::C => true,
        Mode::T => true,
        Mode::V => false,
        Mode::S => false,
    };
    let rhs = match &p.rhs {
        MappingValue::Str(s) => MappingValue::Str(s.clone()),
        MappingValue::Func(s) => MappingValue::Func(s.clone()),
    };
    KeyAction::Inject { backspace, was_modified: bufmodified, rhs }
}

} // verus!
