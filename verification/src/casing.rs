use vstd::prelude::*;
use vstd::string::{StrSliceExecFns, StringExecFns};

verus! {

/// The English cardinal words for `n`, as `num2words` writes them with its
/// default settings; `None` where it reports an error.
pub uninterp spec fn number_words(n: i64) -> Option<Seq<char>>;

/// What `char::to_uppercase` yields for `c`.
pub uninterp spec fn char_upper(c: char) -> Seq<char>;

/// Whether `char::is_alphanumeric` holds of `c`.
pub uninterp spec fn alphanumeric(c: char) -> bool;

/// Calls `num2words::Num2Words::new(n).to_words()`, the English cardinal
/// words for `n`. Its result is a function of `n` alone; the contract names
/// it (`number_words`) and says nothing more of it.
#[verifier::external_body]
fn spell_number(n: i64) -> (r: Option<String>)
    ensures
        match r {
            Some(s) => number_words(n) == Some(s@),
            None => number_words(n) is None,
        },
{
    num2words::Num2Words::new(n).to_words().ok()
}

/// Calls `char::to_uppercase` and collects what it yields. Its
/// documentation promises one character or more; which ones the contract
/// leaves to the name `char_upper`.
#[verifier::external_body]
fn upper(c: char) -> (r: String)
    ensures
        r@ == char_upper(c),
        r@.len() >= 1,
{
    c.to_uppercase().collect::<String>()
}

/// Calls `char::is_alphanumeric`; the contract names its result.
#[verifier::external_body]
fn is_alphanumeric(c: char) -> (r: bool)
    ensures
        r == alphanumeric(c),
{
    c.is_alphanumeric()
}

/// The pieces of `s` between the characters of which `sep` holds, as
/// `str::split` gives them: one more piece than separators, empty pieces
/// included.
pub open spec fn split_where(s: Seq<char>, sep: spec_fn(char) -> bool) -> Seq<Seq<char>>
    decreases s.len(),
{
    if s.len() == 0 {
        seq![Seq::empty()]
    } else {
        let parts = split_where(s.drop_last(), sep);
        if sep(s.last()) {
            parts.push(Seq::empty())
        } else {
            parts.update(parts.len() - 1, parts.last().push(s.last()))
        }
    }
}

pub proof fn lemma_split_where_nonempty(s: Seq<char>, sep: spec_fn(char) -> bool)
    ensures
        split_where(s, sep).len() >= 1,
    decreases s.len(),
{
    if s.len() > 0 {
        lemma_split_where_nonempty(s.drop_last(), sep);
    }
}

/// Separates the words of a snake-case name.
pub open spec fn underscore_sep() -> spec_fn(char) -> bool {
    |c: char| c == '_'
}

/// Separates spelled-out words.
pub open spec fn non_alnum_sep() -> spec_fn(char) -> bool {
    |c: char| !alphanumeric(c)
}

/// The pieces one after another.
pub open spec fn concat_all(parts: Seq<Seq<char>>) -> Seq<char>
    decreases parts.len(),
{
    if parts.len() == 0 {
        Seq::empty()
    } else {
        concat_all(parts.drop_last()) + parts.last()
    }
}

/// A word with its first character in upper case.
pub open spec fn capitalize_spec(w: Seq<char>) -> Seq<char> {
    if w.len() == 0 {
        Seq::empty()
    } else {
        char_upper(w[0]) + w.skip(1)
    }
}

pub open spec fn is_digit(c: char) -> bool {
    '0' <= c <= '9'
}

/// The number that decimal digits write.
pub open spec fn digits_value(s: Seq<char>) -> int
    decreases s.len(),
{
    if s.len() == 0 {
        0
    } else {
        digits_value(s.drop_last()) * 10 + (s.last() as int - '0' as int)
    }
}

pub open spec fn all_digits(s: Seq<char>) -> bool {
    forall|i: int| 0 <= i < s.len() ==> is_digit(#[trigger] s[i])
}

/// How many characters the sign takes: one for a leading `+` or `-`.
pub open spec fn sign_len(s: Seq<char>) -> int {
    if s.len() > 0 && (s[0] == '-' || s[0] == '+') {
        1
    } else {
        0
    }
}

/// `str::parse::<i64>`: an optional `+` or `-`, then one decimal digit or
/// more, the value within `i64`; anything else is an error.
pub open spec fn parse_i64_spec(s: Seq<char>) -> Option<i64> {
    let body = s.skip(sign_len(s));
    let v = if s.len() > 0 && s[0] == '-' {
        -digits_value(body)
    } else {
        digits_value(body)
    };
    if body.len() == 0 || !all_digits(body) {
        None
    } else if i64::MIN <= v <= i64::MAX {
        Some(v as i64)
    } else {
        None
    }
}

/// Spelled-out words in Pascal case: split where a character is not
/// alphanumeric, each piece capitalized, the pieces joined.
pub open spec fn words_pascal(spelled: Seq<char>) -> Seq<char> {
    concat_all(split_where(spelled, non_alnum_sep()).map_values(|w: Seq<char>| capitalize_spec(w)))
}

/// One word of a snake-case name in Pascal case: a number is spelled out
/// in English first (nothing where that fails); any other word is
/// capitalized.
pub open spec fn word_pascal(w: Seq<char>) -> Seq<char> {
    match parse_i64_spec(w) {
        Some(n) => words_pascal(
            match number_words(n) {
                Some(t) => t,
                None => Seq::empty(),
            },
        ),
        None => capitalize_spec(w),
    }
}

/// A snake-case name in Pascal case: split at `_`, each word converted,
/// the words joined.
pub open spec fn pascal_spec(s: Seq<char>) -> Seq<char> {
    concat_all(split_where(s, underscore_sep()).map_values(|w: Seq<char>| word_pascal(w)))
}

proof fn lemma_digits_value_nonneg(s: Seq<char>)
    requires
        all_digits(s),
    ensures
        digits_value(s) >= 0,
    decreases s.len(),
{
    if s.len() > 0 {
        lemma_digits_value_nonneg(s.drop_last());
    }
}

proof fn lemma_digits_value_grows(s: Seq<char>, i: int)
    requires
        0 <= i <= s.len(),
        all_digits(s),
    ensures
        digits_value(s.take(i)) <= digits_value(s),
    decreases s.len() - i,
{
    if i < s.len() {
        lemma_digits_value_grows(s, i + 1);
        let t = s.take(i + 1);
        assert(t.drop_last() =~= s.take(i));
        assert forall|j: int| 0 <= j < t.drop_last().len() implies is_digit(
            #[trigger] t.drop_last()[j],
        ) by {
            assert(t.drop_last()[j] == s[j]);
        }
        lemma_digits_value_nonneg(t.drop_last());
    } else {
        assert(s.take(i) =~= s);
    }
}

/// Parses a decimal integer as `str::parse::<i64>` does (see
/// `parse_i64_spec`).
pub fn parse_i64(s: &str) -> (r: Option<i64>)
    ensures
        r == parse_i64_spec(s@),
{
    let len = s.unicode_len();
    let mut start: usize = 0;
    let mut neg = false;
    if len > 0 {
        let c = s.get_char(0);
        if c == '-' {
            neg = true;
            start = 1;
        } else if c == '+' {
            start = 1;
        }
    }
    let ghost body = s@.skip(start as int);
    proof {
        assert(sign_len(s@) == start);
    }
    if start == len {
        return None;
    }
    let limit: i128 = 9223372036854775808;
    let mut v: i128 = 0;
    let mut i: usize = start;
    while i < len
        invariant
            start <= i <= len,
            len == s@.len(),
            start < len,
            body == s@.skip(start as int),
            all_digits(body.take(i - start)),
            v == digits_value(body.take(i - start)),
            0 <= v <= limit,
            limit == 9223372036854775808,
            sign_len(s@) == start,
            neg == (s@.len() > 0 && s@[0] == '-'),
        decreases len - i,
    {
        let c = s.get_char(i);
        proof {
            assert(body[i - start] == c);
        }
        if !('0' <= c && c <= '9') {
            proof {
                assert(!is_digit(body[i - start]));
            }
            return None;
        }
        let d = (c as u32 - '0' as u32) as i128;
        proof {
            let t = body.take(i - start + 1);
            assert(t.drop_last() =~= body.take(i - start));
            assert(t.last() == c);
            assert forall|j: int| 0 <= j < t.len() implies is_digit(#[trigger] t[j]) by {
                if j < t.len() - 1 {
                    assert(t[j] == body.take(i - start)[j]);
                }
            }
        }
        v = v * 10 + d;
        proof {
            assert(v == digits_value(body.take(i - start + 1)));
        }
        if v > limit {
            proof {
                if all_digits(body) {
                    lemma_digits_value_grows(body, i - start + 1);
                }
            }
            return None;
        }
        i = i + 1;
    }
    proof {
        assert(body.take(len - start) =~= body);
    }
    if neg {
        Some((0 - v) as i64)
    } else if v == limit {
        None
    } else {
        Some(v as i64)
    }
}

/// The word with its first character in upper case.
pub fn capitalize(word: &str) -> (r: String)
    ensures
        r@ == capitalize_spec(word@),
{
    let len = word.unicode_len();
    if len == 0 {
        return String::new();
    }
    let first = upper(word.get_char(0));
    let rest = word.substring_char(1, len);
    first.concat(rest)
}


fn split_pieces(s: &str, at_underscore: bool) -> (r: Vec<String>)
    ensures
        r@.map_values(|x: String| x@) == split_where(
            s@,
            if at_underscore {
                underscore_sep()
            } else {
                non_alnum_sep()
            },
        ),
{
    let ghost sep = if at_underscore {
        underscore_sep()
    } else {
        non_alnum_sep()
    };
    let len = s.unicode_len();
    let mut parts: Vec<String> = Vec::new();
    let mut start: usize = 0;
    let mut i: usize = 0;
    proof {
        assert(s@.take(0) =~= Seq::<char>::empty());
        assert(parts@.map_values(|x: String| x@).push(s@.subrange(0, 0)) =~= seq![
            Seq::<char>::empty(),
        ]);
    }
    while i < len
        invariant
            start <= i <= len,
            len == s@.len(),
            sep == (if at_underscore {
                underscore_sep()
            } else {
                non_alnum_sep()
            }),
            parts@.map_values(|x: String| x@).push(s@.subrange(start as int, i as int))
                == split_where(s@.take(i as int), sep),
        decreases len - i,
    {
        let c = s.get_char(i);
        let is_sep = if at_underscore {
            c == '_'
        } else {
            !is_alphanumeric(c)
        };
        let ghost pv = parts@.map_values(|x: String| x@);
        let ghost st = start;
        proof {
            let t = s@.take(i + 1);
            assert(t.drop_last() =~= s@.take(i as int));
            assert(t.last() == c);
            assert(is_sep == sep(c));
            let prev = split_where(s@.take(i as int), sep);
            assert(prev == pv.push(s@.subrange(st as int, i as int)));
            assert(split_where(t, sep) == if sep(c) {
                prev.push(Seq::empty())
            } else {
                prev.update(prev.len() - 1, prev.last().push(c))
            });
            if !is_sep {
                assert(prev.last().push(c) =~= s@.subrange(st as int, i + 1));
                assert(prev.update(prev.len() - 1, prev.last().push(c)) =~= pv.push(
                    s@.subrange(st as int, i + 1),
                ));
            } else {
                assert(s@.subrange(i + 1, i + 1) =~= Seq::<char>::empty());
                assert(prev.push(Seq::empty()) =~= pv.push(s@.subrange(st as int, i as int)).push(
                    s@.subrange(i + 1, i + 1),
                ));
            }
        }
        if is_sep {
            let piece = s.substring_char(start, i).to_owned();
            parts.push(piece);
            start = i + 1;
            proof {
                assert(parts@.map_values(|x: String| x@) =~= pv.push(
                    s@.subrange(st as int, i as int),
                ));
            }
        }
        i = i + 1;
    }
    let last = s.substring_char(start, len).to_owned();
    let ghost pv = parts@.map_values(|x: String| x@);
    parts.push(last);
    proof {
        assert(s@.take(len as int) =~= s@);
        assert(parts@.map_values(|x: String| x@) =~= pv.push(s@.subrange(start as int, len as int)));
    }
    parts
}

/// Spelled-out words in Pascal case (see `words_pascal`).
pub fn words_pascal_case(spelled: &str) -> (r: String)
    ensures
        r@ == words_pascal(spelled@),
{
    let pieces = split_pieces(spelled, false);
    let ghost caps = pieces@.map_values(|x: String| x@).map_values(
        |w: Seq<char>| capitalize_spec(w),
    );
    let mut out = String::new();
    let mut i: usize = 0;
    proof {
        assert(caps.take(0) =~= Seq::<Seq<char>>::empty());
    }
    while i < pieces.len()
        invariant
            i <= pieces@.len(),
            caps == pieces@.map_values(|x: String| x@).map_values(
                |w: Seq<char>| capitalize_spec(w),
            ),
            out@ == concat_all(caps.take(i as int)),
        decreases pieces@.len() - i,
    {
        let c = capitalize(pieces[i].as_str());
        out = out.concat(c.as_str());
        proof {
            assert(caps.take(i + 1).drop_last() =~= caps.take(i as int));
            assert(caps[i as int] == c@);
        }
        i = i + 1;
    }
    proof {
        assert(caps.take(pieces@.len() as int) =~= caps);
    }
    out
}

/// A snake-case name in Pascal case (see `pascal_spec`): `acacia_button`
/// gives `AcaciaButton`, `age_15` gives `AgeFifteen`.
pub fn to_pascal_case(s: &str) -> (r: String)
    ensures
        r@ == pascal_spec(s@),
{
    let words = split_pieces(s, true);
    let ghost conv = words@.map_values(|x: String| x@).map_values(|w: Seq<char>| word_pascal(w));
    let mut out = String::new();
    let mut i: usize = 0;
    proof {
        assert(conv.take(0) =~= Seq::<Seq<char>>::empty());
    }
    while i < words.len()
        invariant
            i <= words@.len(),
            conv == words@.map_values(|x: String| x@).map_values(|w: Seq<char>| word_pascal(w)),
            out@ == concat_all(conv.take(i as int)),
        decreases words@.len() - i,
    {
        let w = words[i].as_str();
        let piece = match parse_i64(w) {
            Some(n) => {
                let spelled = match spell_number(n) {
                    Some(t) => t,
                    None => String::new(),
                };
                words_pascal_case(spelled.as_str())
            },
            None => capitalize(w),
        };
        out = out.concat(piece.as_str());
        proof {
            assert(conv.take(i + 1).drop_last() =~= conv.take(i as int));
            assert(conv[i as int] == piece@);
        }
        i = i + 1;
    }
    proof {
        assert(conv.take(words@.len() as int) =~= conv);
    }
    out
}


/// The name of a generated field for a property: `type` is a keyword and
/// becomes `kind`; any other name stays.
pub fn process_field(field_name: &str) -> (r: String)
    ensures
        r@ == (if field_name@ == "type"@ {
            "kind"@
        } else {
            field_name@
        }),
{
    proof {
        reveal_strlit("type");
    }
    let len = field_name.unicode_len();
    let is_type = len == 4 && field_name.get_char(0) == 't' && field_name.get_char(1) == 'y'
        && field_name.get_char(2) == 'p' && field_name.get_char(3) == 'e';
    proof {
        if is_type {
            assert(field_name@ =~= "type"@);
        } else if field_name@ == "type"@ {
            assert(field_name@[0] == 't' && field_name@[1] == 'y' && field_name@[2] == 'p'
                && field_name@[3] == 'e');
        }
    }
    if is_type {
        String::from_str("kind")
    } else {
        String::from_str(field_name)
    }
}

} // verus!
