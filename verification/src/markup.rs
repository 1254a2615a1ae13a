//! HTML/XML text escaping, done by maud.
use vstd::prelude::*;

verus! {

/// The escaped form of one character: `&`, `<`, `>` and `"` become entity
/// references, every other character stays.
pub open spec fn escape_char(c: char) -> Seq<char> {
    if c == '&' {
        seq!['&', 'a', 'm', 'p', ';']
    } else if c == '<' {
        seq!['&', 'l', 't', ';']
    } else if c == '>' {
        seq!['&', 'g', 't', ';']
    } else if c == '"' {
        seq!['&', 'q', 'u', 'o', 't', ';']
    } else {
        seq![c]
    }
}

/// Text as maud writes it into markup.
pub open spec fn escape(s: Seq<char>) -> Seq<char>
    decreases s.len(),
{
    if s.len() == 0 {
        Seq::<char>::empty()
    } else {
        escape(s.drop_last()) + escape_char(s.last())
    }
}

/// Escaped text holds no markup: no `<`, `>` or `"`, and every `&` starts
/// one of the four entity references.
pub proof fn lemma_escape_has_no_markup(s: Seq<char>)
    ensures
        forall|i: int|
            0 <= i < escape(s).len() ==> {
                let c = #[trigger] escape(s)[i];
                c != '<' && c != '>' && c != '"'
            },
        !s.contains('<') && !s.contains('>') && !s.contains('"') && !s.contains('&') ==> escape(s)
            == s,
    decreases s.len(),
{
    if s.len() > 0 {
        let p = s.drop_last();
        lemma_escape_has_no_markup(p);
        let e = escape(s);
        assert forall|i: int| 0 <= i < e.len() implies {
            let c = #[trigger] e[i];
            c != '<' && c != '>' && c != '"'
        } by {
            if i < escape(p).len() {
                assert(e[i] == escape(p)[i]);
            } else {
                assert(e[i] == escape_char(s.last())[i - escape(p).len()]);
            }
        }
        if !s.contains('<') && !s.contains('>') && !s.contains('"') && !s.contains('&') {
            assert forall|c: char| p.contains(c) implies s.contains(c) by {
                let k = choose|k: int| 0 <= k < p.len() && p[k] == c;
                assert(s[k] == c);
            }
            assert(s.contains(s.last())) by {
                assert(s[s.len() - 1] == s.last());
            }
            assert(escape(s) =~= s);
        }
    }
}

/// Escapes text for HTML or XML content with maud's `Render` impl for `str`
/// (`maud::Escaper`): each `&`, `<`, `>` and `"` is replaced by its entity
/// reference, every other character is copied.
#[verifier::external_body]
pub fn escape_text(text: &str) -> (r: String)
    ensures
        r@ == escape(text@),
{
    let mut out = String::new();
    maud::Render::render_to(text, &mut out);
    out
}

/// Appends escaped text.
pub fn push_escaped(out: &mut String, text: &str)
    ensures
        final(out)@ == old(out)@ + escape(text@),
{
    let e = escape_text(text);
    out.append(e.as_str());
}

} // verus!
