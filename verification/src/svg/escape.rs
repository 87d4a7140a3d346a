//! Escaping text for XML.

use vstd::prelude::*;
use vstd::string::StringExecFns;

verus! {

/// Whether `c` is one of the five characters that XML gives a meaning:
/// `&`, `<`, `>`, `"` and `'`.
pub open spec fn is_special(c: char) -> bool {
    c == '&' || c == '<' || c == '>' || c == '"' || c == '\''
}

/// What stands for `c` in escaped text: its named entity if `c` is special,
/// and `c` itself if it is not.
pub open spec fn escape_char(c: char) -> Seq<char> {
    if c == '&' {
        seq!['&', 'a', 'm', 'p', ';']
    } else if c == '<' {
        seq!['&', 'l', 't', ';']
    } else if c == '>' {
        seq!['&', 'g', 't', ';']
    } else if c == '"' {
        seq!['&', 'q', 'u', 'o', 't', ';']
    } else if c == '\'' {
        seq!['&', 'a', 'p', 'o', 's', ';']
    } else {
        seq![c]
    }
}

/// `s` escaped: each character replaced by what stands for it.
pub open spec fn escape_spec(s: Seq<char>) -> Seq<char>
    decreases s.len(),
{
    if s.len() == 0 {
        Seq::empty()
    } else {
        escape_spec(s.drop_last()) + escape_char(s.last())
    }
}

/// Whether the entity that stands for `c` starts at position `i` of `text`.
pub open spec fn entity_at(text: Seq<char>, i: int, c: char) -> bool {
    &&& is_special(c)
    &&& 0 <= i
    &&& i + escape_char(c).len() <= text.len()
    &&& text.subrange(i, i + escape_char(c).len()) == escape_char(c)
}

/// Whether `text` is well-formed character data: it holds none of `<`, `>`,
/// `"` and `'`, and every `&` in it starts one of the five named entities.
pub open spec fn is_escaped(text: Seq<char>) -> bool {
    forall|i: int|
        0 <= i < text.len() ==> {
            &&& #[trigger] text[i] != '<'
            &&& text[i] != '>'
            &&& text[i] != '"'
            &&& text[i] != '\''
            &&& text[i] == '&' ==> exists|c: char| entity_at(text, i, c)
        }
}

/// Escapes the five characters that XML gives a meaning. Every other
/// character, whatever its script, is passed on as it is.
pub fn escape_xml(s: &str) -> (escaped: String)
    ensures
        escaped@ == escape_spec(s@),
{
    let mut escaped = String::new();
    for c in it: s.chars()
        invariant
            it.seq() == s@,
            escaped@ == escape_spec(s@.take(it.index() as int)),
    {
        proof {
            let n = it.index() as int;
            assert(s@.take(n + 1).drop_last() =~= s@.take(n));
            assert(s@.take(n + 1).last() == c);
            reveal_strlit("&amp;");
            reveal_strlit("&lt;");
            reveal_strlit("&gt;");
            reveal_strlit("&quot;");
            reveal_strlit("&apos;");
            assert("&amp;"@ =~= seq!['&', 'a', 'm', 'p', ';']);
            assert("&lt;"@ =~= seq!['&', 'l', 't', ';']);
            assert("&gt;"@ =~= seq!['&', 'g', 't', ';']);
            assert("&quot;"@ =~= seq!['&', 'q', 'u', 'o', 't', ';']);
            assert("&apos;"@ =~= seq!['&', 'a', 'p', 'o', 's', ';']);
        }
        let ghost before = escaped@;
        match c {
            '&' => escaped.append("&amp;"),
            '<' => escaped.append("&lt;"),
            '>' => escaped.append("&gt;"),
            '"' => escaped.append("&quot;"),
            '\'' => escaped.append("&apos;"),
            _ => {
                escaped.push(c);
                assert(before.push(c) =~= before + seq![c]);
            },
        }
    }
    assert(s@.take(s@.len() as int) =~= s@);
    escaped
}

/// In what stands for one character, nothing is raw markup, and an `&` is
/// only ever the first character of an entity.
proof fn lemma_escape_char(c: char)
    ensures
        escape_char(c).len() >= 1,
        forall|k: int|
            0 <= k < escape_char(c).len() ==> {
                let e = #[trigger] escape_char(c)[k];
                e != '<' && e != '>' && e != '"' && e != '\''
            },
        forall|k: int| 1 <= k < escape_char(c).len() ==> #[trigger] escape_char(c)[k] != '&',
        escape_char(c)[0] == '&' <==> is_special(c),
        !is_special(c) ==> escape_char(c) == seq![c],
{
}

/// Escaped text is well-formed character data: none of `<`, `>`, `"` and
/// `'` is left in it, and each `&` in it starts a named entity.
pub proof fn escaped_text_is_escaped(s: Seq<char>)
    ensures
        is_escaped(escape_spec(s)),
    decreases s.len(),
{
    if s.len() > 0 {
        let head = escape_spec(s.drop_last());
        let tail = escape_char(s.last());
        let all = head + tail;
        escaped_text_is_escaped(s.drop_last());
        lemma_escape_char(s.last());
        assert forall|i: int| 0 <= i < all.len() implies {
            &&& #[trigger] all[i] != '<'
            &&& all[i] != '>'
            &&& all[i] != '"'
            &&& all[i] != '\''
            &&& all[i] == '&' ==> exists|c: char| entity_at(all, i, c)
        } by {
            if i < head.len() {
                assert(all[i] == head[i]);
                if head[i] == '&' {
                    let c = choose|c: char| entity_at(head, i, c);
                    let n = escape_char(c).len() as int;
                    assert(all.subrange(i, i + n) =~= head.subrange(i, i + n));
                    assert(entity_at(all, i, c));
                }
            } else {
                let k = i - head.len();
                assert(all[i] == tail[k]);
                if all[i] == '&' {
                    assert(k == 0);
                    assert(all.subrange(i, i + tail.len()) =~= tail);
                    assert(entity_at(all, i, s.last()));
                }
            }
        }
    }
}

/// Text without special characters is not changed by escaping.
pub proof fn plain_text_passes_unchanged(s: Seq<char>)
    requires
        forall|i: int| 0 <= i < s.len() ==> !is_special(#[trigger] s[i]),
    ensures
        escape_spec(s) == s,
    decreases s.len(),
{
    if s.len() > 0 {
        plain_text_passes_unchanged(s.drop_last());
        assert(!is_special(s[s.len() - 1]));
        assert(s.drop_last() + seq![s.last()] =~= s);
    }
}

/// Escaping spreads over concatenation: a character is escaped by itself,
/// whatever stands before or behind it.
pub proof fn escape_of_concatenation(a: Seq<char>, b: Seq<char>)
    ensures
        escape_spec(a + b) == escape_spec(a) + escape_spec(b),
    decreases b.len(),
{
    if b.len() == 0 {
        assert(a + b =~= a);
        assert(escape_spec(a) + escape_spec(b) =~= escape_spec(a));
    } else {
        escape_of_concatenation(a, b.drop_last());
        assert((a + b).drop_last() =~= a + b.drop_last());
        assert((a + b).last() == b.last());
        assert((escape_spec(a) + escape_spec(b.drop_last())) + escape_char(b.last())
            =~= escape_spec(a) + (escape_spec(b.drop_last()) + escape_char(b.last())));
    }
}

/// Whether `text` starts with the entity that stands for `c`.
pub open spec fn starts_with_entity(text: Seq<char>, c: char) -> bool {
    entity_at(text, 0, c)
}

/// The character that the entity at the start of `text` stands for, where
/// one of the five entities stands there.
pub open spec fn leading_entity(text: Seq<char>) -> Option<char> {
    if starts_with_entity(text, '&') {
        Some('&')
    } else if starts_with_entity(text, '<') {
        Some('<')
    } else if starts_with_entity(text, '>') {
        Some('>')
    } else if starts_with_entity(text, '"') {
        Some('"')
    } else if starts_with_entity(text, '\'') {
        Some('\'')
    } else {
        None
    }
}

/// `text` with each of the five entities replaced by the character that it
/// stands for.
pub open spec fn unescape_spec(text: Seq<char>) -> Seq<char>
    decreases text.len(),
{
    if text.len() == 0 {
        Seq::empty()
    } else {
        match leading_entity(text) {
            Some(c) => seq![c] + unescape_spec(text.skip(escape_char(c).len() as int)),
            None => seq![text[0]] + unescape_spec(text.skip(1)),
        }
    }
}

/// What stands for `c`, with any text behind it, is read back as `c` and
/// what the text behind it is read back as.
proof fn lemma_unescape_one(c: char, rest: Seq<char>)
    ensures
        unescape_spec(escape_char(c) + rest) == seq![c] + unescape_spec(rest),
{
    let text = escape_char(c) + rest;
    let n = escape_char(c).len() as int;
    assert(text.skip(n) =~= rest);
    assert(text.subrange(0, n) =~= escape_char(c));
    if is_special(c) {
        assert(entity_at(text, 0, c));
        assert forall|d: char| is_special(d) && d != c implies !entity_at(text, 0, d) by {
            let m = escape_char(d).len() as int;
            if m <= text.len() {
                let head = text.subrange(0, m);
                assert(head[1] == text[1]);
                assert(head[2] == text[2]);
                assert(text[1] == escape_char(c)[1]);
                assert(text[2] == escape_char(c)[2]);
            }
        }
        assert(leading_entity(text) == Some(c));
    } else {
        assert(text[0] == c);
        assert forall|d: char| is_special(d) implies !entity_at(text, 0, d) by {
            let m = escape_char(d).len() as int;
            if m <= text.len() {
                assert(text.subrange(0, m)[0] == text[0]);
            }
        }
        assert(leading_entity(text).is_none());
    }
}

/// Escaping loses nothing: escaped text, with its entities replaced by the
/// characters that they stand for, is the text that was escaped.
pub proof fn unescaping_gives_the_text_back(s: Seq<char>)
    ensures
        unescape_spec(escape_spec(s)) == s,
    decreases s.len(),
{
    if s.len() > 0 {
        let first = seq![s[0]];
        let rest = s.drop_first();
        assert(first + rest =~= s);
        escape_of_concatenation(first, rest);
        assert(first.drop_last() =~= Seq::<char>::empty());
        assert(first.last() == s[0]);
        assert(escape_spec(first.drop_last()) =~= Seq::<char>::empty());
        assert(escape_spec(first) == escape_spec(first.drop_last()) + escape_char(first.last()));
        assert(escape_spec(first) =~= escape_char(s[0]));
        lemma_unescape_one(s[0], escape_spec(rest));
        unescaping_gives_the_text_back(rest);
    }
}

} // verus!
