//! Escaping of free text for the platform's rich-text markup.
use vstd::prelude::*;
use vstd::string::StringExecFns;

verus! {

/// The characters that the markup reserves and that free text must escape:
/// its markup characters and the backslash, its escape character.
pub open spec fn is_reserved(c: char) -> bool {
    c == '_' || c == '*' || c == '[' || c == ']' || c == '(' || c == ')' || c == '~' || c == '`'
        || c == '>' || c == '#' || c == '+' || c == '-' || c == '=' || c == '|' || c == '{'
        || c == '}' || c == '.' || c == '!' || c == '\\'
}

/// What one character of free text becomes once escaped.
pub open spec fn escape_char(c: char) -> Seq<char> {
    if is_reserved(c) {
        seq!['\\', c]
    } else {
        seq![c]
    }
}

/// Free text with a backslash put before each reserved character.
pub open spec fn escaped(s: Seq<char>) -> Seq<char>
    decreases s.len(),
{
    if s.len() == 0 {
        Seq::empty()
    } else {
        escape_char(s[0]) + escaped(s.drop_first())
    }
}

/// The text that the markup shows for `s`: read from the left, a backslash
/// stands for the character after it, whatever that is.
pub open spec fn unescaped(s: Seq<char>) -> Seq<char>
    decreases s.len(),
{
    if s.len() == 0 {
        Seq::empty()
    } else if s.len() >= 2 && s[0] == '\\' {
        seq![s[1]] + unescaped(s.skip(2))
    } else {
        seq![s[0]] + unescaped(s.drop_first())
    }
}

/// Read as the markup reads it, `s` has no bare reserved character: every
/// reserved character, the backslash included, is one that a backslash
/// escapes.
pub open spec fn no_bare_reserved(s: Seq<char>) -> bool
    decreases s.len(),
{
    if s.len() == 0 {
        true
    } else if s[0] == '\\' {
        s.len() >= 2 && no_bare_reserved(s.skip(2))
    } else {
        !is_reserved(s[0]) && no_bare_reserved(s.drop_first())
    }
}

/// Text that holds no backslash before another character.
pub open spec fn free_of_escapes(s: Seq<char>) -> bool {
    forall|i: int| 0 <= i < s.len() - 1 ==> #[trigger] s[i] != '\\'
}

/// Escaping text written in two parts is escaping each part.
pub proof fn lemma_escaped_concat(a: Seq<char>, b: Seq<char>)
    ensures
        escaped(a + b) == escaped(a) + escaped(b),
    decreases a.len(),
{
    if a.len() == 0 {
        assert(a + b =~= b);
    } else {
        assert((a + b).drop_first() =~= a.drop_first() + b);
        lemma_escaped_concat(a.drop_first(), b);
        assert(escaped(a + b) =~= escaped(a) + escaped(b));
    }
}

/// Escaping the text one character longer appends that character's escape.
pub proof fn lemma_escaped_push(s: Seq<char>, c: char)
    ensures
        escaped(s.push(c)) == escaped(s) + escape_char(c),
{
    lemma_escaped_concat(s, seq![c]);
    assert(s.push(c) =~= s + seq![c]);
    let one = seq![c];
    assert(one.drop_first() =~= Seq::<char>::empty());
    assert(escaped(one) == escape_char(one[0]) + escaped(one.drop_first()));
    assert(escaped(one) =~= escape_char(c));
}

/// The markup shows escaped text as the original text, whatever it holds.
pub proof fn lemma_unescape_escaped(s: Seq<char>)
    ensures
        unescaped(escaped(s)) == s,
    decreases s.len(),
{
    if s.len() > 0 {
        let rest = escaped(s.drop_first());
        lemma_unescape_escaped(s.drop_first());
        let e = escaped(s);
        if is_reserved(s[0]) {
            assert(e.skip(2) =~= rest);
        } else {
            assert(e.drop_first() =~= rest);
        }
        assert(unescaped(e) =~= s);
    }
}

/// Escaping leaves no reserved character bare.
pub proof fn lemma_escaped_leaves_none_bare(s: Seq<char>)
    ensures
        no_bare_reserved(escaped(s)),
    decreases s.len(),
{
    if s.len() > 0 {
        let rest = escaped(s.drop_first());
        let e = escaped(s);
        lemma_escaped_leaves_none_bare(s.drop_first());
        if is_reserved(s[0]) {
            assert(e.skip(2) =~= rest);
        } else {
            assert(e.drop_first() =~= rest);
        }
    }
}

/// Escaping what the markup shows for escaped text gives the same escaped
/// text back: the round trip through the markup changes nothing.
pub proof fn lemma_escape_round_trip(s: Seq<char>)
    ensures
        escaped(unescaped(escaped(s))) == escaped(s),
        unescaped(escaped(s)) == s,
        no_bare_reserved(escaped(s)),
{
    lemma_unescape_escaped(s);
    lemma_escaped_leaves_none_bare(s);
}

/// Text without escape sequences is shown as itself.
pub proof fn lemma_unescaped_plain(s: Seq<char>)
    requires
        free_of_escapes(s),
    ensures
        unescaped(s) == s,
    decreases s.len(),
{
    if s.len() > 0 {
        let t = s.drop_first();
        assert(free_of_escapes(t)) by {
            assert forall|i: int| 0 <= i < t.len() - 1 implies #[trigger] t[i] != '\\' by {
                assert(s[i + 1] == t[i]);
            }
        }
        lemma_unescaped_plain(t);
        assert(unescaped(s) =~= s);
    }
}

/// Text without escape sequences escapes the same whether or not it is
/// first read as the markup shows it.
pub proof fn lemma_escape_after_unescape(s: Seq<char>)
    requires
        free_of_escapes(s),
    ensures
        escaped(unescaped(s)) == escaped(s),
{
    lemma_unescaped_plain(s);
}

/// Whether the markup reserves `c`.
pub fn is_reserved_char(c: char) -> (r: bool)
    ensures
        r == is_reserved(c),
{
    c == '_' || c == '*' || c == '[' || c == ']' || c == '(' || c == ')' || c == '~' || c == '`'
        || c == '>' || c == '#' || c == '+' || c == '-' || c == '=' || c == '|' || c == '{'
        || c == '}' || c == '.' || c == '!' || c == '\\'
}

/// Escapes every reserved character of `text`.
pub fn escape_text(text: &str) -> (r: String)
    ensures
        r@ == escaped(text@),
{
    let mut out = String::new();
    let n = text.unicode_len();
    let mut i: usize = 0;
    while i < n
        invariant
            n == text@.len(),
            i <= n,
            out@ == escaped(text@.take(i as int)),
        decreases n - i,
    {
        let c = text.get_char(i);
        proof {
            reveal_strlit("\\");
            lemma_escaped_push(text@.take(i as int), c);
            assert(text@.take(i as int).push(c) =~= text@.take(i + 1));
        }
        let one = text.substring_char(i, i + 1);
        assert(one@ =~= seq![c]);
        if is_reserved_char(c) {
            out.append("\\");
        }
        out.append(one);
        i = i + 1;
    }
    assert(text@.take(n as int) =~= text@);
    out
}

} // verus!
