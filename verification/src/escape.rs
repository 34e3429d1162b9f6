//! Backslash-escape decoding.
//!
//! A backslash followed by any character stands for that character literally.
//! A span decodes cleanly when every backslash in it has a following
//! character; a span whose last character is an unmatched backslash is left
//! exactly as it came.

use vstd::prelude::*;

verus! {

/// Whether the span holds a backslash anywhere.
pub open spec fn has_backslash(s: Seq<char>) -> bool {
    exists|i: int| 0 <= i < s.len() && s[i] == '\\'
}

/// Whether every backslash starts a two-character escape pair, so that
/// decoding consumes the whole span.
pub open spec fn decodes_cleanly(s: Seq<char>) -> bool
    decreases s.len(),
{
    if s.len() == 0 {
        true
    } else if s[0] == '\\' {
        s.len() >= 2 && decodes_cleanly(s.skip(2))
    } else {
        decodes_cleanly(s.skip(1))
    }
}

/// The decoded span: each escaping backslash is dropped and the character
/// after it is kept literally. A trailing unmatched backslash is kept (that
/// case never reaches callers: such spans are left undecoded).
pub open spec fn unescape(s: Seq<char>) -> Seq<char>
    decreases s.len(),
{
    if s.len() == 0 {
        Seq::empty()
    } else if s[0] == '\\' {
        if s.len() >= 2 {
            seq![s[1]] + unescape(s.skip(2))
        } else {
            seq!['\\']
        }
    } else {
        seq![s[0]] + unescape(s.skip(1))
    }
}

/// The value a raw span resolves to: decoded when it holds a backslash and
/// decodes cleanly, otherwise the span unchanged.
pub open spec fn resolved(s: Seq<char>) -> Seq<char> {
    if has_backslash(s) && decodes_cleanly(s) {
        unescape(s)
    } else {
        s
    }
}

/// A span with no backslash decodes to itself.
pub proof fn lemma_unescape_no_backslash(s: Seq<char>)
    requires
        !has_backslash(s),
    ensures
        unescape(s) == s,
        decodes_cleanly(s),
    decreases s.len(),
{
    if s.len() == 0 {
        assert(unescape(s) =~= s);
    } else {
        assert(s[0] != '\\');
        assert(!has_backslash(s.skip(1))) by {
            if has_backslash(s.skip(1)) {
                let i = choose|i: int| 0 <= i < s.skip(1).len() && #[trigger] s.skip(1)[i] == '\\';
                assert(s[i + 1] == '\\');
            }
        }
        lemma_unescape_no_backslash(s.skip(1));
        assert(unescape(s) =~= s);
    }
}

/// No span ever goes through decoding twice: a span in which no backslash is
/// itself escaped decodes to a span with no backslash at all, so decoding
/// what decoding produced would change nothing.
pub proof fn lemma_unescape_removes_backslashes(s: Seq<char>)
    requires
        decodes_cleanly(s),
        forall|i: int| 0 <= i < s.len() - 1 && #[trigger] s[i] == '\\' ==> s[i + 1] != '\\',
    ensures
        !has_backslash(unescape(s)),
    decreases s.len(),
{
    if s.len() == 0 {
    } else if s[0] == '\\' {
        let t = s.skip(2);
        assert(forall|i: int| 0 <= i < t.len() - 1 && #[trigger] t[i] == '\\' ==> t[i + 1] != '\\') by {
            assert(forall|i: int| 0 <= i < t.len() ==> #[trigger] t[i] == s[i + 2]);
        }
        lemma_unescape_removes_backslashes(t);
        assert(s[1] != '\\');
        assert(forall|j: int| 0 <= j < unescape(s).len() ==> #[trigger] unescape(s)[j] != '\\') by {
            assert(unescape(s) == seq![s[1]] + unescape(t));
            assert(forall|j: int| 1 <= j < unescape(s).len() ==> #[trigger] unescape(s)[j] == unescape(t)[j - 1]);
        }
    } else {
        let t = s.skip(1);
        assert(forall|i: int| 0 <= i < t.len() - 1 && #[trigger] t[i] == '\\' ==> t[i + 1] != '\\') by {
            assert(forall|i: int| 0 <= i < t.len() ==> #[trigger] t[i] == s[i + 1]);
        }
        lemma_unescape_removes_backslashes(t);
        assert(s[0] != '\\');
        assert(forall|j: int| 0 <= j < unescape(s).len() ==> #[trigger] unescape(s)[j] != '\\') by {
            assert(unescape(s) == seq![s[0]] + unescape(t));
            assert(forall|j: int| 1 <= j < unescape(s).len() ==> #[trigger] unescape(s)[j] == unescape(t)[j - 1]);
        }
    }
}

/// Decoding a span that holds an escape makes it strictly shorter: each
/// escaping backslash is dropped.
pub proof fn lemma_unescape_shorter(s: Seq<char>)
    requires
        has_backslash(s),
        decodes_cleanly(s),
    ensures
        unescape(s).len() < s.len(),
    decreases s.len(),
{
    if s.len() == 0 {
        assert(false);
    } else if s[0] == '\\' {
        let t = s.skip(2);
        if has_backslash(t) {
            lemma_unescape_shorter(t);
        } else {
            lemma_unescape_no_backslash(t);
        }
    } else {
        let t = s.skip(1);
        assert(has_backslash(t)) by {
            let i = choose|i: int| 0 <= i < s.len() && s[i] == '\\';
            assert(i >= 1);
            assert(t[i - 1] == '\\');
        }
        lemma_unescape_shorter(t);
    }
}

/// A span resolves to itself exactly when decoding has nothing to change:
/// either it holds no backslash, or its trailing backslash is unmatched.
pub proof fn lemma_resolved_identity(s: Seq<char>)
    ensures
        (resolved(s) == s) <==> !(has_backslash(s) && decodes_cleanly(s)),
{
    if has_backslash(s) && decodes_cleanly(s) {
        lemma_unescape_shorter(s);
    }
}

/// Decode the escapes of a span. Returns `None` when nothing needs to change:
/// either the span holds no backslash, or its trailing backslash is unmatched
/// and the span is kept as it came. Returns the decoded copy otherwise.
pub fn escape_string_content(input: &str) -> (r: Option<String>)
    ensures
        match r {
            Some(out) => has_backslash(input@) && decodes_cleanly(input@) && out@ == unescape(
                input@,
            ),
            None => !(has_backslash(input@) && decodes_cleanly(input@)),
        },
        match r {
            Some(out) => out@ == resolved(input@),
            None => input@ == resolved(input@),
        },
{
    let ghost s = input@;
    let len = input.unicode_len();
    let mut out = String::new();
    let mut i: usize = 0;
    let mut saw: bool = false;
    proof {
        assert(s.skip(0) =~= s);
        assert(Seq::<char>::empty() + unescape(s) =~= unescape(s));
        assert(s.take(0) =~= Seq::<char>::empty());
    }
    while i < len
        invariant
            len == s.len(),
            s == input@,
            0 <= i <= len,
            decodes_cleanly(s) == decodes_cleanly(s.skip(i as int)),
            unescape(s) == out@ + unescape(s.skip(i as int)),
            saw == has_backslash(s.take(i as int)),
        decreases len - i,
    {
        let ghost pre = s.skip(i as int);
        assert(pre.len() == len - i);
        assert(pre[0] == s[i as int]);
        let c = input.get_char(i);
        if c == '\\' {
            saw = true;
            if i + 1 < len {
                let piece = input.substring_char(i + 1, i + 2);
                proof {
                    assert(piece@ =~= seq![s[i + 1]]);
                    assert(pre.skip(2) =~= s.skip(i + 2));
                    assert(unescape(pre) == seq![pre[1]] + unescape(pre.skip(2)));
                    assert(pre[1] == s[i + 1]);
                    assert(s.take(i + 2) =~= s.take(i as int).push(s[i as int]).push(s[i + 1]));
                    assert(has_backslash(s.take(i + 2))) by {
                        assert(s.take(i + 2)[i as int] == '\\');
                    }
                }
                out.append(piece);
                i = i + 2;
            } else {
                proof {
                    assert(pre.len() == 1 && pre[0] == '\\');
                    assert(!decodes_cleanly(pre));
                }
                return None;
            }
        } else {
            let piece = input.substring_char(i, i + 1);
            proof {
                assert(piece@ =~= seq![s[i as int]]);
                assert(pre.skip(1) =~= s.skip(i + 1));
                assert(unescape(pre) == seq![pre[0]] + unescape(pre.skip(1)));
                assert(s.take(i + 1) =~= s.take(i as int).push(s[i as int]));
                assert(has_backslash(s.take(i + 1)) == has_backslash(s.take(i as int))) by {
                    if has_backslash(s.take(i + 1)) {
                        let k = choose|k: int|
                            0 <= k < i + 1 && #[trigger] s.take(i + 1)[k] == '\\';
                        assert(k < i);
                        assert(s.take(i as int)[k] == '\\');
                    }
                    if has_backslash(s.take(i as int)) {
                        let k = choose|k: int|
                            0 <= k < i && #[trigger] s.take(i as int)[k] == '\\';
                        assert(s.take(i + 1)[k] == '\\');
                    }
                }
            }
            out.append(piece);
            i = i + 1;
        }
    }
    proof {
        assert(s.skip(len as int) =~= Seq::<char>::empty());
        assert(unescape(s) =~= out@);
        assert(s.take(len as int) =~= s);
    }
    if saw {
        Some(out)
    } else {
        proof {
            lemma_unescape_no_backslash(s);
        }
        None
    }
}

} // verus!
