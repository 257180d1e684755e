//! The server's reply, reduced to plain values: the JSON document is parsed
//! by an outside library behind a trusted boundary, and everything that
//! depends on the fields is decided by verified code that takes them as
//! arguments.

use vstd::prelude::*;

verus! {

/// The fields a paste server may return. `parsed` is false when the body was
/// not a JSON document at all; a field is `None` when absent or of another
/// type.
pub struct ServerResponse {
    pub parsed: bool,
    pub status: Option<i64>,
    pub id: Option<String>,
    pub url: Option<String>,
    pub deletetoken: Option<String>,
    pub message: Option<String>,
}

/// Whether the body is a JSON document at all. A function of the characters
/// alone; its value is not axiomatized here.
pub uninterp spec fn parsed_of(body: Seq<char>) -> bool;

/// The reply's `status` field, when present as an integer.
pub uninterp spec fn status_of(body: Seq<char>) -> Option<int>;

/// The reply's `id` field, when present as a string.
pub uninterp spec fn id_of(body: Seq<char>) -> Option<Seq<char>>;

/// The reply's `url` field, when present as a string.
pub uninterp spec fn url_of(body: Seq<char>) -> Option<Seq<char>>;

/// The reply's `deletetoken` field, when present as a string.
pub uninterp spec fn deletetoken_of(body: Seq<char>) -> Option<Seq<char>>;

/// The reply's `message` field, when present as a string.
pub uninterp spec fn message_of(body: Seq<char>) -> Option<Seq<char>>;

/// Relies on `serde_json::from_str::<Value>` and the `Value` accessors
/// `get`, `as_i64` and `as_str`: extracts the response fields, `None` for
/// a field that is absent or not of the expected type. Parsing is
/// deterministic in the body, so each extracted field is named as a
/// function of the characters alone.
#[verifier::external_body]
pub(crate) fn parse_response_fields(body: &str) -> (r: ServerResponse)
    ensures
        r.parsed == parsed_of(body@),
        (r.status is Some) == (status_of(body@) is Some),
        r.status matches Some(v) ==> status_of(body@) == Some(v as int),
        (r.id is Some) == (id_of(body@) is Some),
        r.id matches Some(t) ==> id_of(body@) == Some(t@),
        (r.url is Some) == (url_of(body@) is Some),
        r.url matches Some(t) ==> url_of(body@) == Some(t@),
        (r.deletetoken is Some) == (deletetoken_of(body@) is Some),
        r.deletetoken matches Some(t) ==> deletetoken_of(body@) == Some(t@),
        (r.message is Some) == (message_of(body@) is Some),
        r.message matches Some(t) ==> message_of(body@) == Some(t@),
{
    let absent = ServerResponse {
        parsed: false, status: None, id: None, url: None, deletetoken: None, message: None,
    };
    match serde_json::from_str::<serde_json::Value>(body) {
        Err(_) => absent,
        Ok(v) => ServerResponse {
            parsed: true,
            status: v.get("status").and_then(serde_json::Value::as_i64),
            id: v.get("id").and_then(serde_json::Value::as_str).map(str::to_string),
            url: v.get("url").and_then(serde_json::Value::as_str).map(str::to_string),
            deletetoken: v.get("deletetoken").and_then(serde_json::Value::as_str).map(str::to_string),
            message: v.get("message").and_then(serde_json::Value::as_str).map(str::to_string),
        },
    }
}

/// What `str::trim` leaves of a string: a function of the characters alone.
pub uninterp spec fn trim_of(s: Seq<char>) -> Seq<char>;

/// Relies on `str::trim`: whether the body is empty once surrounding
/// whitespace is removed; trimming an empty string leaves it empty.
#[verifier::external_body]
pub(crate) fn trimmed_is_empty(s: &str) -> (r: bool)
    ensures
        r == (trim_of(s@).len() == 0),
        s@.len() == 0 ==> r,
{
    s.trim().is_empty()
}

/// Index of the first `.`, or the length when there is none.
pub open spec fn first_dot(s: Seq<char>) -> int
    decreases s.len(),
{
    if s.len() == 0 {
        0
    } else if s[0] == '.' {
        0
    } else {
        1 + first_dot(s.drop_first())
    }
}

/// `first_dot` is a position in the string, positive when the string does
/// not start with a dot, with no dot before it and a dot at it when inside.
pub proof fn lemma_first_dot_bounds(s: Seq<char>)
    ensures
        0 <= first_dot(s) <= s.len(),
        s.len() > 0 && s[0] != '.' ==> first_dot(s) >= 1,
        forall|i: int| 0 <= i < first_dot(s) ==> s[i] != '.',
        first_dot(s) < s.len() ==> s[first_dot(s)] == '.',
    decreases s.len(),
{
    if s.len() == 0 || s[0] == '.' {
    } else {
        lemma_first_dot_bounds(s.drop_first());
        assert forall|i: int| 0 <= i < first_dot(s) implies s[i] != '.' by {
            if i > 0 {
                assert(s.drop_first()[i - 1] == s[i]);
            }
        }
        if first_dot(s) < s.len() {
            assert(s.drop_first()[first_dot(s) - 1] == s[first_dot(s)]);
        }
    }
}

/// The maximal nonempty runs between `.` characters, in order; empty runs
/// are dropped.
pub open spec fn split_dots(s: Seq<char>) -> Seq<Seq<char>>
    decreases s.len(),
    via split_dots_decreases
{
    if s.len() == 0 {
        Seq::empty()
    } else if s[0] == '.' {
        split_dots(s.drop_first())
    } else {
        seq![s.take(first_dot(s))] + split_dots(s.skip(first_dot(s)))
    }
}

#[via_fn]
proof fn split_dots_decreases(s: Seq<char>) {
    if s.len() > 0 && s[0] != '.' {
        lemma_first_dot_bounds(s);
    }
}

/// `first_dot` from its defining properties.
pub proof fn lemma_first_dot_is(s: Seq<char>, k: int)
    requires
        0 <= k <= s.len(),
        forall|i: int| 0 <= i < k ==> s[i] != '.',
        k < s.len() ==> s[k] == '.',
    ensures
        first_dot(s) == k,
    decreases s.len(),
{
    if k == 0 {
    } else {
        lemma_first_dot_is(s.drop_first(), k - 1);
    }
}

/// Split a server message into its discrete error strings at `.`.
pub fn split_errors(s: &str) -> (r: Vec<String>)
    ensures
        r.deep_view() == split_dots(s@),
{
    let n = s.unicode_len();
    let mut acc: Vec<String> = Vec::new();
    let mut seg_start: usize = 0;
    let mut i: usize = 0;
    proof {
        assert(s@.skip(0) =~= s@);
        assert(acc.deep_view() =~= Seq::<Seq<char>>::empty());
    }
    while i < n
        invariant
            seg_start <= i <= n == s@.len(),
            forall|k: int| seg_start <= k < i ==> s@[k] != '.',
            split_dots(s@) == acc.deep_view() + split_dots(s@.skip(seg_start as int)),
        decreases n - i,
    {
        let c = s.get_char(i);
        if c == '.' {
            if i > seg_start {
                let ghost olddv = acc.deep_view();
                let seg = s.substring_char(seg_start, i).to_owned();
                acc.push(seg);
                proof {
                    let tail = s@.skip(seg_start as int);
                    assert forall|j: int| 0 <= j < i - seg_start implies tail[j] != '.' by {
                        assert(tail[j] == s@[seg_start + j]);
                    }
                    assert(tail[i - seg_start] == s@[i as int]);
                    lemma_first_dot_is(tail, i - seg_start);
                    assert(tail[0] != '.');
                    assert(tail.take(i - seg_start) =~= s@.subrange(seg_start as int, i as int));
                    assert(tail.skip(i - seg_start) =~= s@.skip(i as int));
                    assert(s@.skip(i as int)[0] == s@[i as int]);
                    assert(split_dots(s@.skip(i as int)) == split_dots(s@.skip(i + 1))) by {
                        assert(s@.skip(i as int).drop_first() =~= s@.skip(i + 1));
                    }
                    assert(acc.deep_view() =~= olddv.push(seg@));
                    assert(olddv + (seq![s@.subrange(seg_start as int, i as int)] + split_dots(
                        s@.skip(i + 1),
                    )) =~= acc.deep_view() + split_dots(s@.skip(i + 1)));
                }
            } else {
                proof {
                    let tail = s@.skip(seg_start as int);
                    assert(tail[0] == s@[i as int]);
                    assert(tail.drop_first() =~= s@.skip(i + 1));
                }
            }
            seg_start = i + 1;
        }
        i += 1;
    }
    if seg_start < n {
        let ghost olddv = acc.deep_view();
        let seg = s.substring_char(seg_start, n).to_owned();
        acc.push(seg);
        proof {
            let tail = s@.skip(seg_start as int);
            assert forall|j: int| 0 <= j < n - seg_start implies tail[j] != '.' by {
                assert(tail[j] == s@[seg_start + j]);
            }
            lemma_first_dot_is(tail, n - seg_start);
            assert(tail[0] != '.');
            assert(tail.take(n - seg_start) =~= s@.subrange(seg_start as int, n as int));
            assert(tail.skip(n - seg_start) =~= Seq::<char>::empty());
            assert(acc.deep_view() =~= olddv.push(seg@));
            assert(olddv + (seq![s@.subrange(seg_start as int, n as int)] + split_dots(
                Seq::<char>::empty(),
            )) =~= acc.deep_view());
        }
    } else {
        proof {
            assert(s@.skip(seg_start as int) =~= Seq::<char>::empty());
            assert(acc.deep_view() + Seq::<Seq<char>>::empty() =~= acc.deep_view());
        }
    }
    acc
}

} // verus!
