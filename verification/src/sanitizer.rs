//! Mapping schema titles and property names to legal identifiers in the
//! generated declarations. Case conversion itself is convert_case's work;
//! what this module adds around it is verified: special characters are
//! spelled out, camel-case humps are split apart, and reserved words are
//! escaped with a trailing underscore.

use vstd::prelude::*;
use crate::text::push_char;
use vstd::string::StrSliceExecFns;
use vstd::string::StringExecFns;
use convert_case::Casing;

verus! {

/// What convert_case's snake-case conversion returns for a string.
pub uninterp spec fn snake_of(s: Seq<char>) -> Seq<char>;

/// What convert_case's pascal-case conversion returns for a string.
pub uninterp spec fn pascal_of(s: Seq<char>) -> Seq<char>;

/// What char::is_uppercase returns for a character.
pub uninterp spec fn uppercase_char(c: char) -> bool;

/// Relies on convert_case's Casing::to_case with Case::Snake: the result
/// is a function of the characters alone.
#[verifier::external_body]
fn to_snake_case(s: &str) -> (r: String)
    ensures
        r@ == snake_of(s@),
{
    s.to_case(convert_case::Case::Snake)
}

/// Relies on convert_case's Casing::to_case with Case::Pascal: the result
/// is a function of the characters alone.
#[verifier::external_body]
fn to_pascal_case(s: &str) -> (r: String)
    ensures
        r@ == pascal_of(s@),
{
    s.to_case(convert_case::Case::Pascal)
}

/// Relies on char::is_uppercase: a property of the character alone.
#[verifier::external_body]
fn char_is_uppercase(c: char) -> (r: bool)
    ensures
        r == uppercase_char(c),
{
    c.is_uppercase()
}

/// `s` with every occurrence of `c` replaced by `rep`.
pub open spec fn replaced(s: Seq<char>, c: char, rep: Seq<char>) -> Seq<char>
    decreases s.len(),
{
    if s.len() == 0 {
        Seq::empty()
    } else {
        (if s[0] == c {
            rep
        } else {
            seq![s[0]]
        }) + replaced(s.drop_first(), c, rep)
    }
}

/// Replaces every occurrence of `c` in `s` by `rep`.
fn replace_char(s: &str, c: char, rep: &str) -> (r: String)
    ensures
        r@ == replaced(s@, c, rep@),
{
    let n = s.unicode_len();
    proof {
        assert(s@.subrange(0, n as int) =~= s@);
    }
    let mut out = String::new();
    let mut i: usize = 0;
    while i < n
        invariant
            0 <= i <= n,
            n == s@.len(),
            replaced(s@, c, rep@) == out@ + replaced(s@.subrange(i as int, n as int), c, rep@),
        decreases n - i,
    {
        let ghost tail = s@.subrange(i as int, n as int);
        proof {
            assert(tail.len() > 0);
            assert(tail[0] == s@[i as int]);
            assert(tail.drop_first() =~= s@.subrange(i as int + 1, n as int));
        }
        let ch = s.get_char(i);
        let ghost out0 = out@;
        if ch == c {
            out.append(rep);
            proof {
                assert(out0 + (rep@ + replaced(tail.drop_first(), c, rep@)) =~= out@ + replaced(
                    tail.drop_first(),
                    c,
                    rep@,
                ));
            }
        } else {
            push_char(&mut out, ch);
            proof {
                assert(out0 + (seq![tail[0]] + replaced(tail.drop_first(), c, rep@)) =~= out@
                    + replaced(tail.drop_first(), c, rep@));
            }
        }
        i = i + 1;
    }
    proof {
        assert(s@.subrange(i as int, n as int).len() == 0);
        assert(out@ + Seq::<char>::empty() =~= out@);
    }
    out
}

/// `s` with a space pushed in front of every uppercase character, so
/// that a later case conversion sees the camel-case humps as words.
pub open spec fn camel_split(s: Seq<char>) -> Seq<char>
    decreases s.len(),
{
    if s.len() == 0 {
        Seq::empty()
    } else {
        (if uppercase_char(s[0]) {
            seq![' ', s[0]]
        } else {
            seq![s[0]]
        }) + camel_split(s.drop_first())
    }
}

/// Pushes a space in front of every uppercase character.
pub fn split_camel_case(name: String) -> (r: String)
    ensures
        r@ == camel_split(name@),
{
    let s = name.as_str();
    let n = s.unicode_len();
    proof {
        assert(s@.subrange(0, n as int) =~= s@);
    }
    let mut out = String::new();
    let mut i: usize = 0;
    while i < n
        invariant
            0 <= i <= n,
            n == s@.len(),
            camel_split(s@) == out@ + camel_split(s@.subrange(i as int, n as int)),
        decreases n - i,
    {
        let ghost tail = s@.subrange(i as int, n as int);
        proof {
            assert(tail.len() > 0);
            assert(tail[0] == s@[i as int]);
            assert(tail.drop_first() =~= s@.subrange(i as int + 1, n as int));
        }
        let ch = s.get_char(i);
        let ghost out0 = out@;
        if char_is_uppercase(ch) {
            push_char(&mut out, ' ');
            push_char(&mut out, ch);
            proof {
                assert(out0 + (seq![' ', tail[0]] + camel_split(tail.drop_first())) =~= out@
                    + camel_split(tail.drop_first()));
            }
        } else {
            push_char(&mut out, ch);
            proof {
                assert(out0 + (seq![tail[0]] + camel_split(tail.drop_first())) =~= out@
                    + camel_split(tail.drop_first()));
            }
        }
        i = i + 1;
    }
    proof {
        assert(s@.subrange(i as int, n as int).len() == 0);
        assert(out@ + Seq::<char>::empty() =~= out@);
    }
    out
}

/// The reserved words of the target language, which cannot stand as
/// identifiers in the generated declarations.
pub open spec fn is_rust_keyword(s: Seq<char>) -> bool {
    ||| s == "as"@
    ||| s == "break"@
    ||| s == "const"@
    ||| s == "continue"@
    ||| s == "crate"@
    ||| s == "dyn"@
    ||| s == "else"@
    ||| s == "enum"@
    ||| s == seq!['e', 'x', 't', 'e', 'r', 'n']
    ||| s == "false"@
    ||| s == "fn"@
    ||| s == "for"@
    ||| s == "if"@
    ||| s == "impl"@
    ||| s == "in"@
    ||| s == "let"@
    ||| s == "loop"@
    ||| s == "match"@
    ||| s == "mod"@
    ||| s == "move"@
    ||| s == "mut"@
    ||| s == "pub"@
    ||| s == "ref"@
    ||| s == "return"@
    ||| s == "self"@
    ||| s == "Self"@
    ||| s == "static"@
    ||| s == "struct"@
    ||| s == "super"@
    ||| s == "trait"@
    ||| s == "true"@
    ||| s == "type"@
    ||| s == "unsafe"@
    ||| s == "use"@
    ||| s == "where"@
    ||| s == "while"@
    ||| s == "async"@
    ||| s == "await"@
    ||| s == "abstract"@
    ||| s == "become"@
    ||| s == "box"@
    ||| s == "do"@
    ||| s == "final"@
    ||| s == "macro"@
    ||| s == "override"@
    ||| s == "priv"@
    ||| s == "typeof"@
    ||| s == "unsized"@
    ||| s == "virtual"@
    ||| s == "yield"@
    ||| s == "try"@
    ||| s == "union"@
}

/// A name, escaped with a trailing underscore when it is reserved.
pub open spec fn escaped_keyword(s: Seq<char>) -> Seq<char> {
    if is_rust_keyword(s) {
        s + "_"@
    } else {
        s
    }
}

fn matches_reserved(s: &str) -> (r: bool)
    ensures
        r == is_rust_keyword(s@),
{
    let sixth = if s.unicode_len() == 6 {
        s.get_char(0) == 'e' && s.get_char(1) == 'x' && s.get_char(2) == 't' && s.get_char(3)
            == 'e' && s.get_char(4) == 'r' && s.get_char(5) == 'n'
    } else {
        false
    };
    proof {
        if sixth {
            assert(s@ =~= seq!['e', 'x', 't', 'e', 'r', 'n']);
        }
        if s@ == seq!['e', 'x', 't', 'e', 'r', 'n'] {
            assert(s@.len() == 6);
            assert(s@[0] == 'e' && s@[1] == 'x' && s@[2] == 't' && s@[3] == 'e' && s@[4] == 'r'
                && s@[5] == 'n');
        }
    }
    crate::text::str_eq(s, "as") || crate::text::str_eq(s, "break") || crate::text::str_eq(
        s,
        "const",
    ) || crate::text::str_eq(s, "continue") || crate::text::str_eq(s, "crate")
        || crate::text::str_eq(s, "dyn") || crate::text::str_eq(s, "else") || crate::text::str_eq(
        s,
        "enum",
    ) || sixth || crate::text::str_eq(s, "false") || crate::text::str_eq(s, "fn")
        || crate::text::str_eq(s, "for") || crate::text::str_eq(s, "if") || crate::text::str_eq(
        s,
        "impl",
    ) || crate::text::str_eq(s, "in") || crate::text::str_eq(s, "let") || crate::text::str_eq(
        s,
        "loop",
    ) || crate::text::str_eq(s, "match") || crate::text::str_eq(s, "mod") || crate::text::str_eq(
        s,
        "move",
    ) || crate::text::str_eq(s, "mut") || crate::text::str_eq(s, "pub") || crate::text::str_eq(
        s,
        "ref",
    ) || crate::text::str_eq(s, "return") || crate::text::str_eq(s, "self")
        || crate::text::str_eq(s, "Self") || crate::text::str_eq(s, "static")
        || crate::text::str_eq(s, "struct") || crate::text::str_eq(s, "super")
        || crate::text::str_eq(s, "trait") || crate::text::str_eq(s, "true")
        || crate::text::str_eq(s, "type") || crate::text::str_eq(s, "unsafe")
        || crate::text::str_eq(s, "use") || crate::text::str_eq(s, "where")
        || crate::text::str_eq(s, "while") || crate::text::str_eq(s, "async")
        || crate::text::str_eq(s, "await") || crate::text::str_eq(s, "abstract")
        || crate::text::str_eq(s, "become") || crate::text::str_eq(s, "box")
        || crate::text::str_eq(s, "do") || crate::text::str_eq(s, "final") || crate::text::str_eq(
        s,
        "macro",
    ) || crate::text::str_eq(s, "override") || crate::text::str_eq(s, "priv")
        || crate::text::str_eq(s, "typeof") || crate::text::str_eq(s, "unsized")
        || crate::text::str_eq(s, "virtual") || crate::text::str_eq(s, "yield")
        || crate::text::str_eq(s, "try") || crate::text::str_eq(s, "union")
}

/// Escapes a reserved word by appending an underscore.
pub fn escape_keywords(name: String) -> (r: String)
    ensures
        r@ == escaped_keyword(name@),
{
    if matches_reserved(name.as_str()) {
        let r = name.concat("_");
        r
    } else {
        name
    }
}

/// The identifier chosen for a raw property name: camel humps split,
/// special characters spelled out, snake case, reserved words escaped.
pub open spec fn property_ident(raw: Seq<char>) -> Seq<char> {
    escaped_keyword(
        snake_of(replaced(replaced(camel_split(raw), '@', " at "@), '$', " dollar "@)),
    )
}

/// The identifier chosen for a raw record name: special characters
/// spelled out, then pascal case.
pub open spec fn struct_ident(raw: Seq<char>) -> Seq<char> {
    pascal_of(replaced(replaced(raw, '@', " at "@), '$', " dollar "@))
}

/// Maps a raw property name to a legal field identifier.
pub fn sanitize_property_name(name: String) -> (r: String)
    ensures
        r@ == property_ident(name@),
{
    let split = split_camel_case(name);
    let at = replace_char(split.as_str(), '@', " at ");
    let dollar = replace_char(at.as_str(), '$', " dollar ");
    let snake = to_snake_case(dollar.as_str());
    escape_keywords(snake)
}

/// Maps a raw title to a legal record identifier.
pub fn sanitize_struct_name(name: String) -> (r: String)
    ensures
        r@ == struct_ident(name@),
{
    let at = replace_char(name.as_str(), '@', " at ");
    let dollar = replace_char(at.as_str(), '$', " dollar ");
    to_pascal_case(dollar.as_str())
}

} // verus!
