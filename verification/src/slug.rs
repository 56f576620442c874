//! File-name slugs: every character is mapped into a safe alphabet, then
//! runs of separators collapse to single dashes with none left at the ends.

use vstd::prelude::*;

use crate::text::{lower_char, spec_lower_char};

verus! {

/// An ASCII letter or digit.
pub open spec fn spec_is_ascii_alnum(c: char) -> bool {
    ('0' <= c <= '9') || ('a' <= c <= 'z') || ('A' <= c <= 'Z')
}

/// Where each character goes: letters and digits fold to lowercase, a space
/// or dash becomes a separator (an underscore too, when `fold_underscore`),
/// anything else becomes an underscore.
pub open spec fn spec_slug_map(c: char, fold_underscore: bool) -> char {
    if spec_is_ascii_alnum(c) {
        spec_lower_char(c)
    } else if c == ' ' || c == '-' {
        '-'
    } else if fold_underscore && c == '_' {
        '-'
    } else {
        '_'
    }
}

/// Collapsing separators, before the first word: leading separators vanish.
pub open spec fn spec_slug_start(s: Seq<char>) -> Seq<char>
    decreases s.len(),
{
    if s.len() == 0 {
        Seq::empty()
    } else if s[0] == '-' {
        spec_slug_start(s.drop_first())
    } else {
        seq![s[0]] + spec_slug_word(s.drop_first())
    }
}

/// Collapsing separators, inside a word: characters pass through until a
/// separator opens a gap.
pub open spec fn spec_slug_word(s: Seq<char>) -> Seq<char>
    decreases s.len(),
{
    if s.len() == 0 {
        Seq::empty()
    } else if s[0] != '-' {
        seq![s[0]] + spec_slug_word(s.drop_first())
    } else {
        spec_slug_gap(s.drop_first())
    }
}

/// Collapsing separators, in a gap after a word: further separators vanish,
/// and the next word is joined by exactly one dash. A gap at the end
/// contributes nothing.
pub open spec fn spec_slug_gap(s: Seq<char>) -> Seq<char>
    decreases s.len(),
{
    if s.len() == 0 {
        Seq::empty()
    } else if s[0] == '-' {
        spec_slug_gap(s.drop_first())
    } else {
        seq!['-', s[0]] + spec_slug_word(s.drop_first())
    }
}

/// The slug of a text under the given mapping.
pub open spec fn spec_slug(s: Seq<char>, fold_underscore: bool) -> Seq<char> {
    spec_slug_start(s.map_values(|c: char| spec_slug_map(c, fold_underscore)))
}

/// Executable character mapping.
fn map_slug_char(c: char, fold_underscore: bool) -> (r: char)
    ensures
        r == spec_slug_map(c, fold_underscore),
{
    let u = c as u32;
    if (48 <= u && u <= 57) || (97 <= u && u <= 122) {
        c
    } else if 65 <= u && u <= 90 {
        lower_char(c)
    } else if c == ' ' || c == '-' {
        '-'
    } else if fold_underscore && c == '_' {
        '-'
    } else {
        '_'
    }
}

/// The one-character string for a character of the slug alphabet.
fn slug_char_str(c: char) -> (r: &'static str)
    requires
        ('a' <= c <= 'z') || ('0' <= c <= '9') || c == '-' || c == '_',
    ensures
        r@ == seq![c],
{
    proof {
        reveal_strlit("a");
        reveal_strlit("b");
        reveal_strlit("c");
        reveal_strlit("d");
        reveal_strlit("e");
        reveal_strlit("f");
        reveal_strlit("g");
        reveal_strlit("h");
        reveal_strlit("i");
        reveal_strlit("j");
        reveal_strlit("k");
        reveal_strlit("l");
        reveal_strlit("m");
        reveal_strlit("n");
        reveal_strlit("o");
        reveal_strlit("p");
        reveal_strlit("q");
        reveal_strlit("r");
        reveal_strlit("s");
        reveal_strlit("t");
        reveal_strlit("u");
        reveal_strlit("v");
        reveal_strlit("w");
        reveal_strlit("x");
        reveal_strlit("y");
        reveal_strlit("z");
        reveal_strlit("-");
        reveal_strlit("_");
    }
    match c {
        'a' => "a",
        'b' => "b",
        'c' => "c",
        'd' => "d",
        'e' => "e",
        'f' => "f",
        'g' => "g",
        'h' => "h",
        'i' => "i",
        'j' => "j",
        'k' => "k",
        'l' => "l",
        'm' => "m",
        'n' => "n",
        'o' => "o",
        'p' => "p",
        'q' => "q",
        'r' => "r",
        's' => "s",
        't' => "t",
        'u' => "u",
        'v' => "v",
        'w' => "w",
        'x' => "x",
        'y' => "y",
        'z' => "z",
        '-' => "-",
        _ => {
            let d = crate::text::digit_val(c);
            match d {
                Some(v) => crate::text::digit_str(v as u64),
                None => "_",
            }
        },
    }
}

/// The states of the separator-collapsing pass.
#[derive(Clone, Copy, PartialEq, Eq, Structural)]
enum SlugState {
    Start,
    Word,
    Gap,
}

/// Builds the slug of `s` under the given mapping.
fn build_slug(s: &str, fold_underscore: bool) -> (r: String)
    ensures
        r@ == spec_slug(s@, fold_underscore),
{
    proof {
        reveal_strlit("-");
    }
    let ghost mapped = s@.map_values(|c: char| spec_slug_map(c, fold_underscore));
    let len = s.unicode_len();
    let mut out = String::new();
    let mut st = SlugState::Start;
    let mut i: usize = 0;
    proof {
        assert(mapped.skip(0) =~= mapped);
        assert(Seq::<char>::empty() + spec_slug_start(mapped) =~= spec_slug_start(mapped));
    }
    while i < len
        invariant
            0 <= i <= len == s@.len(),
            mapped == s@.map_values(|c: char| spec_slug_map(c, fold_underscore)),
            mapped.len() == len,
            st == SlugState::Start ==> spec_slug_start(mapped) == out@ + spec_slug_start(
                mapped.skip(i as int),
            ),
            st == SlugState::Word ==> spec_slug_start(mapped) == out@ + spec_slug_word(
                mapped.skip(i as int),
            ),
            st == SlugState::Gap ==> spec_slug_start(mapped) == out@ + spec_slug_gap(
                mapped.skip(i as int),
            ),
        decreases len - i,
    {
        let c = map_slug_char(s.get_char(i), fold_underscore);
        proof {
            assert(mapped[i as int] == spec_slug_map(s@[i as int], fold_underscore));
            assert(mapped.skip(i as int)[0] == mapped[i as int]);
            assert(mapped.skip(i as int).drop_first() =~= mapped.skip(i as int + 1));
            assert(c == '_' || c == '-' || ('a' <= c <= 'z') || ('0' <= c <= '9'));
        }
        let ghost oprev = out@;
        match st {
            SlugState::Start => {
                if c != '-' {
                    out.append(slug_char_str(c));
                    st = SlugState::Word;
                    proof {
                        assert(spec_slug_start(mapped.skip(i as int)) == seq![c] + spec_slug_word(
                            mapped.skip(i as int + 1),
                        ));
                        assert(oprev + (seq![c] + spec_slug_word(mapped.skip(i as int + 1))) =~= out@
                            + spec_slug_word(mapped.skip(i as int + 1)));
                    }
                } else {
                    proof {
                        assert(spec_slug_start(mapped.skip(i as int)) == spec_slug_start(
                            mapped.skip(i as int + 1),
                        ));
                    }
                }
            },
            SlugState::Word => {
                if c != '-' {
                    out.append(slug_char_str(c));
                    proof {
                        assert(spec_slug_word(mapped.skip(i as int)) == seq![c] + spec_slug_word(
                            mapped.skip(i as int + 1),
                        ));
                        assert(oprev + (seq![c] + spec_slug_word(mapped.skip(i as int + 1))) =~= out@
                            + spec_slug_word(mapped.skip(i as int + 1)));
                    }
                } else {
                    st = SlugState::Gap;
                    proof {
                        assert(spec_slug_word(mapped.skip(i as int)) == spec_slug_gap(
                            mapped.skip(i as int + 1),
                        ));
                    }
                }
            },
            SlugState::Gap => {
                if c != '-' {
                    out.append("-");
                    out.append(slug_char_str(c));
                    st = SlugState::Word;
                    proof {
                        reveal_strlit("-");
                        assert(spec_slug_gap(mapped.skip(i as int)) == seq!['-', c]
                            + spec_slug_word(mapped.skip(i as int + 1)));
                        assert(out@ =~= oprev + seq!['-', c]);
                        assert(oprev + (seq!['-', c] + spec_slug_word(mapped.skip(i as int + 1)))
                            =~= out@ + spec_slug_word(mapped.skip(i as int + 1)));
                    }
                } else {
                    proof {
                        assert(spec_slug_gap(mapped.skip(i as int)) == spec_slug_gap(
                            mapped.skip(i as int + 1),
                        ));
                    }
                }
            },
        }
        i = i + 1;
    }
    proof {
        assert(mapped.skip(len as int) =~= Seq::<char>::empty());
        assert(out@ + Seq::<char>::empty() =~= out@);
    }
    out
}

/// The file-name slug of a post title: ASCII letters and digits fold to
/// lowercase, spaces and dashes join words with single dashes (none leading
/// or trailing), and every other character becomes an underscore.
pub fn generate_slug(title: &str) -> (r: String)
    ensures
        r@ == spec_slug(title@, false),
{
    build_slug(title, false)
}

/// The file-name slug of an image name: as [`generate_slug`], with
/// underscores also treated as word separators.
pub fn slugify(s: &str) -> (r: String)
    ensures
        r@ == spec_slug(s@, true),
{
    build_slug(s, true)
}

} // verus!
