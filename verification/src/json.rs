//! JSON in the replies of a language model.
use vstd::prelude::*;
use crate::pattern;
use crate::text;

verus! {

// ── Fences ─────────────────────────────────────────────────────────────────────

/// A text without the line that opens a code fence.
pub open spec fn without_opening(s: Seq<char>) -> Seq<char> {
    if text::begins(s, "```"@) {
        match text::split_at_first(s, '\n') {
            Some(p) => p.1,
            None => s,
        }
    } else {
        s
    }
}

/// A text without white space around it and without the code fence that it stands in.
pub open spec fn unfenced(s: Seq<char>) -> Seq<char> {
    let t = without_opening(text::trimmed(s));
    match text::before_suffix(t, "```"@) {
        Some(x) => text::trimmed_end(x),
        None => t,
    }
}

/// Removes the code fence round a text.
pub fn strip_code_fences(s: &str) -> (r: String)
    ensures
        r@ == unfenced(s@),
{
    let t = text::trim(s);
    let t = if text::starts_with(&t, "```") {
        match text::split_once(&t, '\n') {
            Some(p) => p.1,
            None => t,
        }
    } else {
        t
    };
    match text::strip_suffix(&t, "```") {
        Some(x) => text::trim_end(&x),
        None => t,
    }
}

/// The JSON object of a reply, given the first braced part of the reply: the text in the code
/// fence where it begins with a brace, or else the braced part, or else all of the reply.
pub open spec fn json_part(reply: Seq<char>, braced: Option<Seq<char>>) -> Seq<char> {
    if text::begins(text::trimmed_start(unfenced(reply)), "{"@) {
        unfenced(reply)
    } else {
        match braced {
            Some(m) => m,
            None => reply,
        }
    }
}

/// Picks the JSON object of a reply, given the first braced part of the reply.
pub fn pick_json(reply: &str, braced: Option<String>) -> (r: String)
    ensures
        r@ == json_part(reply@, text::opt(braced)),
{
    let stripped = strip_code_fences(reply);
    if text::starts_with(&text::trim_start(&stripped), "{") {
        stripped
    } else {
        match braced {
            Some(m) => m,
            None => reply.to_owned(),
        }
    }
}

/// The JSON object of a reply.
pub open spec fn json_in(reply: Seq<char>) -> Seq<char> {
    json_part(reply, pattern::first_match(pattern::BRACED@, reply))
}

/// Finds the JSON object of a reply.
pub fn extract_json(reply: &str) -> (r: String)
    ensures
        r@ == json_in(reply@),
{
    let braced = pattern::find(pattern::BRACED, reply);
    pick_json(reply, braced)
}

// ── Line breaks in strings ─────────────────────────────────────────────────────

/// A JSON text with each line break in its strings written as an escape; `inside` says whether
/// the text begins within a string. What follows a backslash in a string is left alone.
pub open spec fn sanitized(s: Seq<char>, inside: bool) -> Seq<char>
    decreases s.len(),
{
    if s.len() == 0 {
        s
    } else if !inside {
        seq![s[0]] + sanitized(s.skip(1), s[0] == '"')
    } else if s[0] == '\\' {
        if s.len() == 1 {
            s
        } else {
            seq!['\\', s[1]] + sanitized(s.skip(2), true)
        }
    } else if s[0] == '\n' {
        seq!['\\', 'n'] + sanitized(s.skip(1), true)
    } else if s[0] == '\r' {
        seq!['\\', 'r'] + sanitized(s.skip(1), true)
    } else {
        seq![s[0]] + sanitized(s.skip(1), s[0] != '"')
    }
}

/// Escapes the line breaks in the strings of a JSON text.
pub fn sanitize_json_strings(s: &str) -> (r: String)
    ensures
        r@ == sanitized(s@, false),
{
    let v = text::chars_of(s);
    let mut out = String::new();
    let mut inside = false;
    let mut i: usize = 0;
    assert(v@.skip(0) =~= v@);
    while i < v.len()
        invariant
            i <= v.len(),
            v@ == s@,
            out@ + sanitized(v@.skip(i as int), inside) == sanitized(s@, false),
        decreases v.len() - i,
    {
        let c = v[i];
        let ghost before = out@;
        let ghost rest = v@.skip(i as int);
        assert(rest.skip(1) =~= v@.skip(i + 1));
        if !inside {
            out.push(c);
            inside = c == '"';
            assert(before + (seq![c] + sanitized(rest.skip(1), inside)) =~= out@ + sanitized(
                rest.skip(1),
                inside,
            ));
        } else if c == '\\' {
            out.push('\\');
            i += 1;
            if i < v.len() {
                out.push(v[i]);
                assert(rest.skip(2) =~= v@.skip(i + 1));
                assert(before + (seq!['\\', rest[1]] + sanitized(rest.skip(2), true)) =~= out@
                    + sanitized(rest.skip(2), true));
            } else {
                assert(before + rest =~= out@);
                return out;
            }
        } else if c == '"' {
            out.push('"');
            inside = false;
            assert(before + (seq![c] + sanitized(rest.skip(1), false)) =~= out@ + sanitized(
                rest.skip(1),
                false,
            ));
        } else if c == '\n' {
            out.push('\\');
            out.push('n');
            assert(before + (seq!['\\', 'n'] + sanitized(rest.skip(1), true)) =~= out@ + sanitized(
                rest.skip(1),
                true,
            ));
        } else if c == '\r' {
            out.push('\\');
            out.push('r');
            assert(before + (seq!['\\', 'r'] + sanitized(rest.skip(1), true)) =~= out@ + sanitized(
                rest.skip(1),
                true,
            ));
        } else {
            out.push(c);
            assert(before + (seq![c] + sanitized(rest.skip(1), true)) =~= out@ + sanitized(
                rest.skip(1),
                true,
            ));
        }
        i += 1;
    }
    assert(v@.skip(i as int) =~= Seq::<char>::empty());
    assert(out@ + sanitized(v@.skip(i as int), inside) =~= out@);
    out
}

/// A text without line breaks is left as it is.
pub proof fn sanitizing_keeps_text_without_breaks(s: Seq<char>, inside: bool)
    requires
        !s.contains('\n'),
        !s.contains('\r'),
    ensures
        sanitized(s, inside) == s,
    decreases s.len(),
{
    if s.len() > 0 {
        assert(s[0] != '\n' && s[0] != '\r');
        assert forall|c: char| s.skip(1).contains(c) implies s.contains(c) by {
            let j = choose|j: int| 0 <= j < s.len() - 1 && s.skip(1)[j] == c;
            assert(s[j + 1] == c);
        }
        if inside && s[0] == '\\' && s.len() > 1 {
            assert forall|c: char| s.skip(2).contains(c) implies s.contains(c) by {
                let j = choose|j: int| 0 <= j < s.len() - 2 && s.skip(2)[j] == c;
                assert(s[j + 2] == c);
            }
            sanitizing_keeps_text_without_breaks(s.skip(2), true);
            assert(seq!['\\', s[1]] + s.skip(2) =~= s);
        } else {
            sanitizing_keeps_text_without_breaks(s.skip(1), true);
            sanitizing_keeps_text_without_breaks(s.skip(1), false);
            assert(seq![s[0]] + s.skip(1) =~= s);
        }
    }
}

/// A text that was sanitized once is left as it is.
pub proof fn sanitizing_twice_is_sanitizing_once(s: Seq<char>, inside: bool)
    ensures
        sanitized(sanitized(s, inside), inside) == sanitized(s, inside),
    decreases s.len(),
{
    let t = sanitized(s, inside);
    if s.len() == 0 {
    } else if inside && s[0] == '\\' {
        if s.len() > 1 {
            sanitizing_twice_is_sanitizing_once(s.skip(2), true);
            assert(t.skip(2) =~= sanitized(s.skip(2), true));
        }
    } else if inside && (s[0] == '\n' || s[0] == '\r') {
        sanitizing_twice_is_sanitizing_once(s.skip(1), true);
        assert(t.skip(2) =~= sanitized(s.skip(1), true));
    } else {
        let after = if inside { s[0] != '"' } else { s[0] == '"' };
        sanitizing_twice_is_sanitizing_once(s.skip(1), after);
        assert(t.skip(1) =~= sanitized(s.skip(1), after));
    }
}

/// Whether no line break stands in a string of a JSON text, but for one that a backslash precedes;
/// `inside` says whether the text begins within a string.
pub open spec fn no_breaks_in_strings(s: Seq<char>, inside: bool) -> bool
    decreases s.len(),
{
    if s.len() == 0 {
        true
    } else if !inside {
        no_breaks_in_strings(s.skip(1), s[0] == '"')
    } else if s[0] == '\\' {
        s.len() == 1 || no_breaks_in_strings(s.skip(2), true)
    } else {
        s[0] != '\n' && s[0] != '\r' && no_breaks_in_strings(s.skip(1), s[0] != '"')
    }
}

/// A sanitized text has no line breaks in its strings.
pub proof fn sanitizing_removes_breaks(s: Seq<char>, inside: bool)
    ensures
        no_breaks_in_strings(sanitized(s, inside), inside),
    decreases s.len(),
{
    let t = sanitized(s, inside);
    if s.len() == 0 {
    } else if inside && s[0] == '\\' {
        if s.len() > 1 {
            sanitizing_removes_breaks(s.skip(2), true);
            assert(t.skip(2) =~= sanitized(s.skip(2), true));
        }
    } else if inside && (s[0] == '\n' || s[0] == '\r') {
        sanitizing_removes_breaks(s.skip(1), true);
        assert(t.skip(2) =~= sanitized(s.skip(1), true));
    } else {
        let after = if inside { s[0] != '"' } else { s[0] == '"' };
        sanitizing_removes_breaks(s.skip(1), after);
        assert(t.skip(1) =~= sanitized(s.skip(1), after));
    }
}

/// What a reply is read as: its JSON object, with the line breaks in strings escaped.
pub fn reply_json(reply: &str) -> (r: String)
    ensures
        r@ == sanitized(json_in(reply@), false),
{
    sanitize_json_strings(&extract_json(reply))
}

// ── Lists of strings ───────────────────────────────────────────────────────────

/// The strings of a JSON array of strings, as `serde_json::from_str` reads it.
pub uninterp spec fn json_strings(s: Seq<char>) -> Option<Seq<Seq<char>>>;

/// `serde_json::from_str` for a list of strings: a function of the text alone; a failure is
/// handed on as `None`.
#[verifier::external_body]
pub(crate) fn parse_strings(s: &str) -> (r: Option<Vec<String>>)
    ensures
        pattern::opt_views(r) == json_strings(s@),
{
    serde_json::from_str::<Vec<String>>(s).ok()
}

// ── Laws ─────────────────────────────────────────────────────────────────────

/// A text in a code fence is what stands between its opening line and its end, whatever language
/// the opening line names.
pub proof fn fences_are_taken_off(language: Seq<char>, body: Seq<char>)
    requires
        !language.contains('\n'),
        body.len() > 0,
        !text::is_space(body.last()),
    ensures
        unfenced("```"@ + language + seq!['\n'] + body + seq!['\n'] + "```"@) == body,
        unfenced("```"@ + language + seq!['\n'] + body + "```"@) == body,
{
    lemma_fence(language, body, seq!['\n']);
    lemma_fence(language, body, Seq::empty());
    let f = "```"@;
    assert(f + language + seq!['\n'] + body + Seq::<char>::empty() + f =~= f + language + seq!['\n']
        + body + f);
}

/// A fence round a text with white space behind it.
proof fn lemma_fence(language: Seq<char>, body: Seq<char>, space: Seq<char>)
    requires
        !language.contains('\n'),
        body.len() > 0,
        !text::is_space(body.last()),
        space == seq!['\n'] || space == Seq::<char>::empty(),
    ensures
        unfenced("```"@ + language + seq!['\n'] + body + space + "```"@) == body,
{
    let f = "```"@;
    assert(f.len() == 3 && f[0] == '`' && f[1] == '`' && f[2] == '`') by {
        reveal_strlit("```");
    }
    let s = f + language + seq!['\n'] + body + space + f;
    text::nothing_to_trim(s);
    assert(s.subrange(0, 3) =~= f);
    assert(text::begins(s, f));
    let rest = body + space + f;
    let front = f + language;
    assert(s =~= front + seq!['\n'] + rest);
    assert(!front.contains('\n')) by {
        if front.contains('\n') {
            let i = choose|i: int| 0 <= i < front.len() && front[i] == '\n';
            if i >= 3 {
                assert(language[i - 3] == '\n');
            }
        }
    }
    text::split_around(front, '\n', rest);
    assert(without_opening(s) == rest);
    assert(rest.subrange(rest.len() - 3, rest.len() as int) =~= f);
    assert(rest.take(rest.len() - 3) =~= body + space);
    assert forall|i: int| 0 <= i < space.len() implies text::is_space(#[trigger] space[i]) by {}
    text::trimming_the_end(body, space);
}

/// A text without a fence is left as it is, but for white space round it.
pub proof fn plain_texts_stay(s: Seq<char>)
    requires
        !text::begins(text::trimmed(s), "```"@),
        !text::ends(text::trimmed(s), "```"@),
    ensures
        unfenced(s) == text::trimmed(s),
{
}

/// An object in a code fence or alone is the object of a reply; where other text stands round it,
/// its braced part is.
pub proof fn objects_are_found(language: Seq<char>, body: Seq<char>, braced: Option<Seq<char>>, talk: Seq<char>)
    requires
        !language.contains('\n'),
        body.len() > 0,
        body[0] == '{',
        body.last() == '}',
    ensures
        json_part("```"@ + language + seq!['\n'] + body + seq!['\n'] + "```"@, braced) == body,
        json_part(body, braced) == body,
        !text::begins(text::trimmed_start(unfenced(talk)), "{"@) && braced is Some ==> json_part(
            talk,
            braced,
        ) == braced->0,
{
    reveal_strlit("{");
    reveal_strlit("```");
    fences_are_taken_off(language, body);
    text::nothing_to_trim(body);
    assert(body.subrange(0, 1) =~= "{"@);
    assert(text::begins(body, "{"@));
    if text::begins(body, "```"@) {
        assert(body.subrange(0, 3)[0] == '`');
    }
    if text::ends(body, "```"@) {
        assert(body.subrange(body.len() - 3, body.len() as int)[2] == '`');
    }
    plain_texts_stay(body);
}

} // verus!
