//! Conversion of schema names into camelCase identifiers.
use vstd::prelude::*;
use crate::text::{char_lower, char_upper, join_spec, join_strings, lowercase_char, push_char,
    uppercase_char, views};

verus! {

/// The characters that separate the words of a schema name.
pub open spec fn is_name_sep(c: char) -> bool {
    c == '.' || c == '_'
}

/// The words of a name, split at every separator (so empty words appear
/// around adjacent separators and at the ends). There is always at least one.
pub open spec fn segments(s: Seq<char>) -> Seq<Seq<char>>
    decreases s.len(),
{
    if s.len() == 0 {
        seq![Seq::empty()]
    } else {
        let r = segments(s.drop_last());
        if is_name_sep(s.last()) {
            r.push(Seq::empty())
        } else {
            r.update(r.len() - 1, r.last().push(s.last()))
        }
    }
}

pub proof fn lemma_segments_len(s: Seq<char>)
    ensures
        segments(s).len() >= 1,
    decreases s.len(),
{
    if s.len() > 0 {
        lemma_segments_len(s.drop_last());
    }
}

/// The first character mapped through `char::to_lowercase`.
pub open spec fn lower_first_spec(s: Seq<char>) -> Seq<char> {
    if s.len() == 0 {
        s
    } else {
        char_lower(s[0]) + s.drop_first()
    }
}

/// The first character mapped through `char::to_uppercase`.
pub open spec fn upper_first_spec(s: Seq<char>) -> Seq<char> {
    if s.len() == 0 {
        s
    } else {
        char_upper(s[0]) + s.drop_first()
    }
}

/// No word before position `i` has a character: the word at `i`, if it has
/// one, is the first word of the name.
pub open spec fn leads(segs: Seq<Seq<char>>, i: int) -> bool {
    forall|j: int| 0 <= j < i ==> (#[trigger] segs[j]).len() == 0
}

/// The first non-empty word with a lower-case first letter, every later word
/// with an upper-case first letter (empty words stay empty either way).
pub open spec fn cased_segments(segs: Seq<Seq<char>>) -> Seq<Seq<char>> {
    segs.map(
        |i: int, w: Seq<char>| if leads(segs, i) { lower_first_spec(w) } else { upper_first_spec(w) },
    )
}

/// The camelCase form of a name: its words, cased, written together.
pub open spec fn camel_spec(s: Seq<char>) -> Seq<char> {
    join_spec(cased_segments(segments(s)), Seq::empty())
}

/// `s` with its first character lower-cased.
pub fn lower_case_first(s: &str) -> (r: String)
    ensures
        r@ == lower_first_spec(s@),
{
    let n = s.unicode_len();
    if n == 0 {
        String::from_str(s)
    } else {
        let mut r = lowercase_char(s.get_char(0));
        r.append(s.substring_char(1, n));
        proof {
            assert(s@.subrange(1, n as int) =~= s@.drop_first());
        }
        r
    }
}

/// `s` with its first character upper-cased.
pub fn upper_case_first(s: &str) -> (r: String)
    ensures
        r@ == upper_first_spec(s@),
{
    let n = s.unicode_len();
    if n == 0 {
        String::from_str(s)
    } else {
        let mut r = uppercase_char(s.get_char(0));
        r.append(s.substring_char(1, n));
        proof {
            assert(s@.subrange(1, n as int) =~= s@.drop_first());
        }
        r
    }
}

/// Splits a name into its words.
fn split_words(s: &str) -> (r: Vec<String>)
    ensures
        views(r@) == segments(s@),
{
    let n = s.unicode_len();
    let mut words: Vec<String> = Vec::new();
    let mut cur = String::new();
    let mut i: usize = 0;
    while i < n
        invariant
            i <= n,
            n == s@.len(),
            views(words@).push(cur@) == segments(s@.take(i as int)),
        decreases n - i,
    {
        let c = s.get_char(i);
        let ghost before = views(words@).push(cur@);
        proof {
            assert(s@.take(i as int + 1).drop_last() =~= s@.take(i as int));
            lemma_segments_len(s@.take(i as int));
        }
        if c == '.' || c == '_' {
            words.push(cur);
            cur = String::new();
            proof {
                assert(views(words@).push(cur@) =~= before.push(Seq::empty()));
            }
        } else {
            push_char(&mut cur, c);
            proof {
                assert(views(words@).push(cur@) =~= before.update(before.len() - 1, before.last().push(c)));
            }
        }
        i = i + 1;
    }
    proof {
        assert(s@.take(n as int) =~= s@);
    }
    words.push(cur);
    words
}

/// The camelCase form of a name whose words are separated by `.` or `_`.
pub fn camel_case(s: &str) -> (r: String)
    ensures
        r@ == camel_spec(s@),
{
    let words = split_words(s);
    proof {
        lemma_segments_len(s@);
    }
    let mut parts: Vec<String> = Vec::new();
    let mut leading = true;
    let mut i: usize = 0;
    while i < words.len()
        invariant
            i <= words@.len(),
            views(words@) == segments(s@),
            views(parts@) == cased_segments(segments(s@)).take(i as int),
            leading == leads(segments(s@), i as int),
        decreases words@.len() - i,
    {
        let part = if leading {
            lower_case_first(words[i].as_str())
        } else {
            upper_case_first(words[i].as_str())
        };
        if words[i].as_str().unicode_len() > 0 {
            leading = false;
        }
        let ghost before = views(parts@);
        parts.push(part);
        proof {
            assert(views(words@)[i as int] == words@[i as int]@);
            let segs = segments(s@);
            assert(cased_segments(segs)[i as int] == part@);
            assert(views(parts@) =~= before.push(part@));
            assert(views(parts@) =~= cased_segments(segments(s@)).take(i as int + 1));
            assert(segs[i as int] == words@[i as int]@);
            if !leads(segs, i as int + 1) && leads(segs, i as int) {
                assert(segs[i as int].len() > 0);
            }
        }
        i = i + 1;
    }
    proof {
        assert(cased_segments(segments(s@)).take(i as int) =~= cased_segments(segments(s@)));
        reveal_strlit("");
        assert(""@ =~= Seq::<char>::empty());
    }
    join_strings(&parts, "")
}

/// The identifier of a table's variable: its camelCase name and `Table`.
pub fn generate_table_var_name(table_name: &str) -> (r: String)
    ensures
        r@ == camel_spec(table_name@) + "Table"@,
{
    let mut r = camel_case(table_name);
    r.append("Table");
    r
}

} // verus!
