use vstd::prelude::*;

verus! {

/// Relies on `String::push`: appends one character.
pub assume_specification[ String::push ](s: &mut String, ch: char)
    ensures
        final(s)@ == old(s)@.push(ch),
;

/// The character that an escape letter stands for after a backslash.
pub open spec fn escaped(c: char) -> Option<char> {
    if c == 'n' {
        Some('\n')
    } else if c == 't' {
        Some('\t')
    } else if c == 'r' {
        Some('\r')
    } else if c == '"' {
        Some('"')
    } else {
        None
    }
}

/// Resolves the escapes `\n`, `\t`, `\r` and `\"`; any other character,
/// a lone backslash included, stands for itself.
pub open spec fn unescape(s: Seq<char>) -> Seq<char>
    decreases s.len(),
{
    if s.len() == 0 {
        Seq::empty()
    } else if s.len() >= 2 && s[0] == '\\' && escaped(s[1]) is Some {
        seq![escaped(s[1])->0] + unescape(s.subrange(2, s.len() as int))
    } else {
        seq![s[0]] + unescape(s.subrange(1, s.len() as int))
    }
}

/// The content of a string literal: the text between the surrounding double
/// quotes with its escapes resolved; empty when the text is not quoted.
pub open spec fn string_literal(s: Seq<char>) -> Seq<char> {
    if s.len() >= 2 && s[0] == '"' && s[s.len() - 1] == '"' {
        unescape(s.subrange(1, s.len() - 1))
    } else {
        Seq::empty()
    }
}

fn escape_of(c: char) -> (r: Option<char>)
    ensures
        r == escaped(c),
{
    if c == 'n' {
        Some('\n')
    } else if c == 't' {
        Some('\t')
    } else if c == 'r' {
        Some('\r')
    } else if c == '"' {
        Some('"')
    } else {
        None
    }
}

/// Reads a string literal as written in source text into its value.
pub fn make_string(src_string: &str) -> (r: String)
    ensures
        r@ == string_literal(src_string@),
{
    let mut output_string = String::new();
    let n = src_string.unicode_len();
    if n < 2 || src_string.get_char(0) != '"' || src_string.get_char(n - 1) != '"' {
        return output_string;
    }
    let ghost s = src_string@;
    let ghost t = s.subrange(1, n - 1);
    let end = n - 1;
    let mut i: usize = 1;
    while i < end
        invariant
            1 <= i <= end,
            end == n - 1,
            n == s.len(),
            s == src_string@,
            t == s.subrange(1, n - 1),
            unescape(t) == output_string@ + unescape(s.subrange(i as int, end as int)),
        decreases end - i,
    {
        let ghost rest = s.subrange(i as int, end as int);
        let c = src_string.get_char(i);
        if c == '\\' && i + 1 < end {
            match escape_of(src_string.get_char(i + 1)) {
                Some(e) => {
                    assert(rest.subrange(2, rest.len() as int) =~= s.subrange(i + 2, end as int));
                    assert(output_string@.push(e) + unescape(s.subrange(i + 2, end as int))
                        =~= output_string@ + unescape(rest));
                    output_string.push(e);
                    i = i + 2;
                    continue;
                },
                None => {},
            }
        }
        assert(rest.subrange(1, rest.len() as int) =~= s.subrange(i + 1, end as int));
        assert(output_string@.push(c) + unescape(s.subrange(i + 1, end as int))
            =~= output_string@ + unescape(rest));
        output_string.push(c);
        i = i + 1;
    }
    assert(output_string@ + unescape(s.subrange(i as int, end as int)) =~= output_string@);
    output_string
}

} // verus!
