//! Text utilities for entry-point symbol construction: lexicographic name
//! order, token concatenation, and the normalization applied to type-derived
//! tokens.

use vstd::prelude::*;

verus! {

// ---------------------------------------------------------------------------
// Lexicographic order on character sequences, used to sort constant names.
// ---------------------------------------------------------------------------

/// Strict lexicographic order by character code, shorter prefixes first.
pub open spec fn lex_lt(a: Seq<char>, b: Seq<char>) -> bool
    decreases a.len(),
{
    if b.len() == 0 {
        false
    } else if a.len() == 0 {
        true
    } else if (a[0] as u32) < (b[0] as u32) {
        true
    } else if a[0] == b[0] {
        lex_lt(a.drop_first(), b.drop_first())
    } else {
        false
    }
}

/// Characters with the same code point are the same character.
proof fn lemma_char_code_inj(c1: char, c2: char)
    requires
        c1 as u32 == c2 as u32,
    ensures
        c1 == c2,
{
}

/// Exactly one of `lex_lt(a, b)`, `a == b`, `lex_lt(b, a)` holds.
pub proof fn lemma_lex_trichotomy(a: Seq<char>, b: Seq<char>)
    ensures
        lex_lt(a, b) || lex_lt(b, a) || a == b,
        lex_lt(a, b) ==> !lex_lt(b, a) && a != b,
        lex_lt(b, a) ==> !lex_lt(a, b) && a != b,
    decreases a.len(),
{
    if a.len() == 0 && b.len() == 0 {
        assert(a =~= b);
    } else if a.len() > 0 && b.len() > 0 {
        if a[0] == b[0] {
            lemma_lex_trichotomy(a.drop_first(), b.drop_first());
            if a.drop_first() == b.drop_first() {
                assert forall|i: int| 0 <= i < a.len() implies a[i] == b[i] by {
                    if i >= 1 {
                        assert(a[i] == a.drop_first()[i - 1]);
                        assert(b[i] == b.drop_first()[i - 1]);
                    }
                }
                assert(a =~= b);
            }
        } else {
            if (a[0] as u32) == (b[0] as u32) {
                lemma_char_code_inj(a[0], b[0]);
            }
            if a == b {
                assert(a[0] == b[0]);
            }
        }
    } else {
        if a == b {
            assert(a.len() == b.len());
        }
    }
}

/// `lex_lt` is transitive.
pub proof fn lemma_lex_transitive(a: Seq<char>, b: Seq<char>, c: Seq<char>)
    requires
        lex_lt(a, b),
        lex_lt(b, c),
    ensures
        lex_lt(a, c),
    decreases a.len(),
{
    if a.len() == 0 {
    } else {
        // b and c are nonempty since something is lex-below each of them.
        if a[0] == b[0] && b[0] == c[0] {
            lemma_lex_transitive(a.drop_first(), b.drop_first(), c.drop_first());
        }
    }
}

/// Compares two strings in the order of [`lex_lt`].
pub fn str_lt(a: &String, b: &String) -> (r: bool)
    ensures
        r == lex_lt(a@, b@),
{
    let a_len = a.as_str().unicode_len();
    let b_len = b.as_str().unicode_len();
    proof {
        assert(a@.skip(0) =~= a@);
        assert(b@.skip(0) =~= b@);
    }
    let mut i: usize = 0;
    while i < a_len && i < b_len
        invariant
            0 <= i <= a_len,
            0 <= i <= b_len,
            a_len == a@.len(),
            b_len == b@.len(),
            forall|j: int| 0 <= j < i ==> a@[j] == b@[j],
            lex_lt(a@, b@) == lex_lt(a@.skip(i as int), b@.skip(i as int)),
        decreases a_len - i,
    {
        let ca = a.as_str().get_char(i);
        let cb = b.as_str().get_char(i);
        proof {
            assert(a@.skip(i as int)[0] == a@[i as int]);
            assert(b@.skip(i as int)[0] == b@[i as int]);
            assert(a@.skip(i as int).drop_first() =~= a@.skip(i + 1));
            assert(b@.skip(i as int).drop_first() =~= b@.skip(i + 1));
        }
        if (ca as u32) < (cb as u32) {
            return true;
        }
        if (ca as u32) > (cb as u32) {
            return false;
        }
        assert(ca == cb);
        i = i + 1;
    }
    proof {
        if i >= b_len {
            assert(b@.skip(i as int).len() == 0);
        } else {
            assert(a@.skip(i as int).len() == 0);
            assert(b@.skip(i as int).len() > 0);
        }
    }
    i < b_len
}

// ---------------------------------------------------------------------------
// Token concatenation.
// ---------------------------------------------------------------------------

/// Concatenation of tokens, each prefixed by `__`.
pub open spec fn tokens_concat(ts: Seq<Seq<char>>) -> Seq<char>
    decreases ts.len(),
{
    if ts.len() == 0 {
        Seq::empty()
    } else {
        tokens_concat(ts.drop_last()) + "__"@ + ts.last()
    }
}

/// Appends `__` and then each token of `ts` to `s`.
pub fn append_tokens(s: &mut String, ts: &Vec<String>)
    ensures
        final(s)@ == old(s)@ + tokens_concat(ts.deep_view()),
{
    let ghost orig = s@;
    let mut i: usize = 0;
    while i < ts.len()
        invariant
            0 <= i <= ts.len(),
            s@ == orig + tokens_concat(ts.deep_view().subrange(0, i as int)),
        decreases ts.len() - i,
    {
        s.append("__");
        s.append(ts[i].as_str());
        proof {
            let prefix = ts.deep_view().subrange(0, i + 1);
            assert(prefix.drop_last() =~= ts.deep_view().subrange(0, i as int));
            assert(prefix.last() == ts.deep_view()[i as int]);
        }
        i = i + 1;
    }
    proof {
        assert(ts.deep_view().subrange(0, ts.len() as int) =~= ts.deep_view());
    }
}

// ---------------------------------------------------------------------------
// Type-derived token normalization.
// ---------------------------------------------------------------------------

/// ASCII upper-case letters become lower-case; everything else is unchanged.
pub open spec fn lower_char(c: char) -> char {
    if 65 <= c as u32 <= 90 {
        ((c as u32 + 32) as u8) as char
    } else {
        c
    }
}

/// Lower-cases every character.
pub open spec fn lower_seq(s: Seq<char>) -> Seq<char> {
    s.map_values(|c: char| lower_char(c))
}

/// Space and newline characters are dropped.
pub open spec fn strip_ws(s: Seq<char>) -> Seq<char>
    decreases s.len(),
{
    if s.len() == 0 {
        Seq::empty()
    } else if s.last() == ' ' || s.last() == '\n' {
        strip_ws(s.drop_last())
    } else {
        strip_ws(s.drop_last()).push(s.last())
    }
}

/// Bracket, parenthesis and comma characters become underscores.
pub open spec fn special_char(c: char) -> char {
    if c == '<' || c == '>' || c == '[' || c == ']' || c == '(' || c == ')' || c == ',' {
        '_'
    } else {
        c
    }
}

/// Maps [`special_char`] over the sequence.
pub open spec fn map_special(s: Seq<char>) -> Seq<char> {
    s.map_values(|c: char| special_char(c))
}

/// Each `::` pair collapses to a single underscore.
pub open spec fn collapse_colons(s: Seq<char>) -> Seq<char>
    decreases s.len(),
{
    if s.len() >= 2 && s[0] == ':' && s[1] == ':' {
        seq!['_'] + collapse_colons(s.skip(2))
    } else if s.len() >= 1 {
        seq![s[0]] + collapse_colons(s.skip(1))
    } else {
        Seq::empty()
    }
}

/// Trailing underscores are trimmed.
pub open spec fn trim_underscores(s: Seq<char>) -> Seq<char>
    decreases s.len(),
{
    if s.len() > 0 && s.last() == '_' {
        trim_underscores(s.drop_last())
    } else {
        s
    }
}

/// Normalization applied to a type-derived token's value: whitespace dropped,
/// punctuation collapsed to underscores, trailing underscores trimmed, and
/// the result lower-cased.
pub open spec fn sanitize_type(s: Seq<char>) -> Seq<char> {
    lower_seq(trim_underscores(collapse_colons(map_special(strip_ws(s)))))
}

/// The token emitted for a type-derived pair: the lower-cased key, an
/// underscore, and the normalized value.
pub open spec fn type_token(kv: (Seq<char>, Seq<char>)) -> Seq<char> {
    lower_seq(kv.0) + "_"@ + sanitize_type(kv.1)
}

/// The tokens emitted for a list of type-derived pairs.
pub open spec fn type_tokens(ts: Seq<(Seq<char>, Seq<char>)>) -> Seq<Seq<char>> {
    ts.map_values(|kv: (Seq<char>, Seq<char>)| type_token(kv))
}

/// The characters of `s`, in order.
pub fn str_to_chars(s: &str) -> (r: Vec<char>)
    ensures
        r@ == s@,
{
    let len = s.unicode_len();
    let mut r: Vec<char> = Vec::new();
    let mut i: usize = 0;
    while i < len
        invariant
            0 <= i <= len,
            len == s@.len(),
            r@ == s@.subrange(0, i as int),
        decreases len - i,
    {
        r.push(s.get_char(i));
        proof {
            assert(s@.subrange(0, i + 1) =~= s@.subrange(0, i as int).push(s@[i as int]));
        }
        i = i + 1;
    }
    proof {
        assert(s@.subrange(0, len as int) =~= s@);
    }
    r
}

/// A string holding exactly the characters of `v`.
pub fn chars_to_string(v: &Vec<char>) -> (r: String)
    ensures
        r@ == v@,
{
    let mut r = String::new();
    let mut i: usize = 0;
    while i < v.len()
        invariant
            0 <= i <= v.len(),
            r@ == v@.subrange(0, i as int),
        decreases v.len() - i,
    {
        crate::shader_def::push_char(&mut r, v[i]);
        proof {
            assert(v@.subrange(0, i + 1) =~= v@.subrange(0, i as int).push(v@[i as int]));
        }
        i = i + 1;
    }
    proof {
        assert(v@.subrange(0, v.len() as int) =~= v@);
    }
    r
}

/// Lower-cases every character of `v`.
fn lower_chars(v: &Vec<char>) -> (r: Vec<char>)
    ensures
        r@ == lower_seq(v@),
{
    let mut r: Vec<char> = Vec::new();
    let mut i: usize = 0;
    while i < v.len()
        invariant
            0 <= i <= v.len(),
            r@ == lower_seq(v@.subrange(0, i as int)),
        decreases v.len() - i,
    {
        let c = v[i];
        let code = c as u32;
        if 65 <= code && code <= 90 {
            r.push(((code + 32) as u8) as char);
        } else {
            r.push(c);
        }
        proof {
            assert(lower_seq(v@.subrange(0, i + 1))
                =~= lower_seq(v@.subrange(0, i as int)).push(lower_char(v@[i as int])));
        }
        i = i + 1;
    }
    proof {
        assert(v@.subrange(0, v.len() as int) =~= v@);
    }
    r
}

/// Applies [`sanitize_type`] to the characters of `s`.
pub fn sanitize_type_chars(s: &str) -> (r: Vec<char>)
    ensures
        r@ == sanitize_type(s@),
{
    let chars = str_to_chars(s);

    // Drop spaces and newlines, and map punctuation to underscores.
    let mut stripped: Vec<char> = Vec::new();
    let mut i: usize = 0;
    while i < chars.len()
        invariant
            0 <= i <= chars.len(),
            chars@ == s@,
            stripped@ == map_special(strip_ws(s@.subrange(0, i as int))),
        decreases chars.len() - i,
    {
        let c = chars[i];
        proof {
            let pre = s@.subrange(0, i + 1);
            assert(pre.drop_last() =~= s@.subrange(0, i as int));
            assert(pre.last() == s@[i as int]);
        }
        if c != ' ' && c != '\n' {
            if c == '<' || c == '>' || c == '[' || c == ']' || c == '(' || c == ')' || c == ',' {
                stripped.push('_');
            } else {
                stripped.push(c);
            }
            proof {
                let base = strip_ws(s@.subrange(0, i as int));
                assert(map_special(base.push(s@[i as int]))
                    =~= map_special(base).push(special_char(s@[i as int])));
            }
        }
        i = i + 1;
    }
    proof {
        assert(s@.subrange(0, s@.len() as int) =~= s@);
    }

    // Collapse `::` pairs.
    let mut collapsed: Vec<char> = Vec::new();
    proof {
        assert(stripped@.skip(0) =~= stripped@);
        assert(Seq::<char>::empty() + collapse_colons(stripped@) =~= collapse_colons(stripped@));
    }
    let mut j: usize = 0;
    while j < stripped.len()
        invariant
            0 <= j <= stripped.len(),
            stripped@ == map_special(strip_ws(s@)),
            collapsed@ + collapse_colons(stripped@.skip(j as int)) == collapse_colons(stripped@),
        decreases stripped.len() - j,
    {
        let ghost tail = stripped@.skip(j as int);
        if j + 1 < stripped.len() && stripped[j] == ':' && stripped[j + 1] == ':' {
            collapsed.push('_');
            proof {
                assert(tail[0] == ':' && tail[1] == ':');
                assert(tail.skip(2) =~= stripped@.skip(j + 2));
                assert(collapse_colons(tail) == seq!['_'] + collapse_colons(stripped@.skip(j + 2)));
            }
            j = j + 2;
        } else {
            collapsed.push(stripped[j]);
            proof {
                assert(tail[0] == stripped@[j as int]);
                assert(tail.skip(1) =~= stripped@.skip(j + 1));
                if tail.len() >= 2 && tail[0] == ':' && tail[1] == ':' {
                    assert(j + 1 < stripped.len() && stripped[j as int] == ':'
                        && stripped[j + 1] == ':');
                }
                assert(collapse_colons(tail) == seq![tail[0]] + collapse_colons(stripped@.skip(j + 1)));
            }
            j = j + 1;
        }
    }
    proof {
        assert(stripped@.skip(stripped@.len() as int).len() == 0);
        assert(collapsed@ =~= collapse_colons(stripped@));
    }

    // Trim trailing underscores.
    let mut end: usize = collapsed.len();
    proof {
        assert(collapsed@.subrange(0, collapsed.len() as int) =~= collapsed@);
    }
    while end > 0 && collapsed[end - 1] == '_'
        invariant
            0 <= end <= collapsed.len(),
            trim_underscores(collapsed@.subrange(0, end as int)) == trim_underscores(collapsed@),
        decreases end,
    {
        proof {
            let pre = collapsed@.subrange(0, end as int);
            assert(pre.last() == '_');
            assert(pre.drop_last() =~= collapsed@.subrange(0, end - 1));
        }
        end = end - 1;
    }
    let mut trimmed: Vec<char> = Vec::new();
    let mut k: usize = 0;
    while k < end
        invariant
            0 <= k <= end <= collapsed.len(),
            trimmed@ == collapsed@.subrange(0, k as int),
        decreases end - k,
    {
        trimmed.push(collapsed[k]);
        proof {
            assert(collapsed@.subrange(0, k + 1)
                =~= collapsed@.subrange(0, k as int).push(collapsed@[k as int]));
        }
        k = k + 1;
    }
    proof {
        let pre = collapsed@.subrange(0, end as int);
        if end > 0 {
            assert(pre.last() != '_');
        }
        assert(trim_underscores(pre) == pre);
        assert(trimmed@ == trim_underscores(collapse_colons(map_special(strip_ws(s@)))));
    }

    lower_chars(&trimmed)
}

/// The token emitted for one type-derived pair.
pub fn type_token_string(key: &String, value: &String) -> (r: String)
    ensures
        r@ == type_token((key@, value@)),
{
    let key_chars = str_to_chars(key.as_str());
    let mut r = chars_to_string(&lower_chars(&key_chars));
    r.append("_");
    let value_chars = sanitize_type_chars(value.as_str());
    let tail = chars_to_string(&value_chars);
    r.append(tail.as_str());
    r
}

} // verus!
