//! Character-level text helpers shared by every codec: the separator scheme,
//! splitting and joining on a separator, decimal-numeral texts, and
//! unsigned-integer parsing and formatting.
use vstd::prelude::*;

verus! {

/// Separates the fields of a persisted data row (id, timestamps, payload).
pub const MAIN_SEPARATOR: char = ';';

/// Separates the top-level fields of a lobby payload.
pub const LOBBY_SEPARATOR: char = '$';

/// Separates the top-level fields of a world payload.
pub const WORLD_SEPARATOR: char = '|';

/// Separates the top-level fields of a player payload.
pub const PLAYER_SEPARATOR: char = '!';

/// Separates the two fields of an interactable-object payload.
pub const MOODLE_OBJECT_SEPARATOR: char = '#';

/// Separates the items of a world's object list.
pub const MOODLE_OBJECT_LIST_SEPARATOR: char = '~';

/// Separates the items of a player's interacted-object list.
pub const OBJECT_PLAYER_INTERACTED_WITH_SEPARATOR: char = '^';

/// Separates the two fields of a lobby's player record.
pub const LOBBY_PLAYER_MODELS_SEPARATOR: char = '@';

/// Separates the items of a lobby's player list.
pub const LOBBY_PLAYER_LIST_SEPARATOR: char = '%';

/// Separates the three components of a player's position triple.
pub const POSITION_SEPARATOR: char = ':';

/// Separates the components of a primitive value (coordinates, color).
pub const VALUE_SEPARATOR: char = ',';

/// Whether the character `c` occurs anywhere in `s`.
pub open spec fn contains_char(s: Seq<char>, c: char) -> bool {
    exists|i: int| 0 <= i < s.len() && s[i] == c
}

/// Index of the first occurrence of `sep` in `s`; `s.len()` when absent.
pub open spec fn first_sep(s: Seq<char>, sep: char) -> nat
    decreases s.len(),
{
    if s.len() == 0 {
        0
    } else if s[0] == sep {
        0
    } else {
        1 + first_sep(s.skip(1), sep)
    }
}

pub proof fn lemma_first_sep(s: Seq<char>, sep: char)
    ensures
        first_sep(s, sep) <= s.len(),
        forall|j: int| 0 <= j < first_sep(s, sep) ==> s[j] != sep,
        first_sep(s, sep) < s.len() ==> s[first_sep(s, sep) as int] == sep,
    decreases s.len(),
{
    if s.len() == 0 {
    } else if s[0] == sep {
    } else {
        lemma_first_sep(s.skip(1), sep);
        let f = first_sep(s, sep) as int;
        assert forall|j: int| 0 <= j < f implies s[j] != sep by {
            if j >= 1 {
                assert(s.skip(1)[j - 1] == s[j]);
            }
        }
        if f < s.len() {
            assert(s.skip(1)[f - 1] == s[f]);
        }
    }
}

/// The pieces of `s` between occurrences of `sep`, in order. A text without
/// the separator is one piece; every occurrence of `sep` ends a piece, so the
/// result always holds one piece more than `s` holds separators.
pub open spec fn split_text(s: Seq<char>, sep: char) -> Seq<Seq<char>>
    decreases s.len(),
{
    let i = first_sep(s, sep);
    if i >= s.len() {
        seq![s]
    } else {
        seq![s.take(i as int)] + split_text(s.skip(i as int + 1), sep)
    }
}

/// The pieces joined back into one text with `sep` between them.
pub open spec fn join_text(ps: Seq<Seq<char>>, sep: char) -> Seq<char>
    decreases ps.len(),
{
    if ps.len() == 0 {
        seq![]
    } else if ps.len() == 1 {
        ps[0]
    } else {
        ps[0] + seq![sep] + join_text(ps.drop_first(), sep)
    }
}

pub proof fn lemma_split_no_sep(s: Seq<char>, sep: char)
    requires
        !contains_char(s, sep),
    ensures
        split_text(s, sep) == seq![s],
{
    lemma_first_sep(s, sep);
    if first_sep(s, sep) < s.len() {
        assert(s[first_sep(s, sep) as int] == sep);
    }
}

pub proof fn lemma_split_at(a: Seq<char>, b: Seq<char>, sep: char)
    requires
        !contains_char(a, sep),
    ensures
        split_text(a + seq![sep] + b, sep) == seq![a] + split_text(b, sep),
{
    let s = a + seq![sep] + b;
    lemma_first_sep(s, sep);
    let f = first_sep(s, sep) as int;
    assert(s[a.len() as int] == sep);
    if f < a.len() {
        assert(s[f] == a[f]);
        assert(false);
    }
    if f > a.len() {
        assert(s[a.len() as int] != sep);
        assert(false);
    }
    assert(s.take(f) =~= a);
    assert(s.skip(f + 1) =~= b);
}

/// Splitting undoes joining, as long as no piece holds the separator.
pub proof fn lemma_split_join(ps: Seq<Seq<char>>, sep: char)
    requires
        ps.len() >= 1,
        forall|k: int| 0 <= k < ps.len() ==> !contains_char(#[trigger] ps[k], sep),
    ensures
        split_text(join_text(ps, sep), sep) == ps,
    decreases ps.len(),
{
    if ps.len() == 1 {
        lemma_split_no_sep(ps[0], sep);
        assert(split_text(join_text(ps, sep), sep) =~= ps);
    } else {
        lemma_split_join(ps.drop_first(), sep);
        lemma_split_at(ps[0], join_text(ps.drop_first(), sep), sep);
        assert(seq![ps[0]] + ps.drop_first() =~= ps);
    }
}

/// A character occurs in a concatenation exactly when it occurs in a part.
pub proof fn lemma_contains_concat(a: Seq<char>, b: Seq<char>, c: char)
    ensures
        contains_char(a + b, c) <==> (contains_char(a, c) || contains_char(b, c)),
{
    if contains_char(a, c) {
        let i = choose|i: int| 0 <= i < a.len() && a[i] == c;
        assert((a + b)[i] == c);
    }
    if contains_char(b, c) {
        let i = choose|i: int| 0 <= i < b.len() && b[i] == c;
        assert((a + b)[a.len() + i] == c);
    }
    if contains_char(a + b, c) {
        let i = choose|i: int| 0 <= i < (a + b).len() && (a + b)[i] == c;
        if i < a.len() {
            assert(a[i] == c);
        } else {
            assert(b[i - a.len()] == c);
        }
    }
}

/// A character absent from every piece and different from the separator is
/// absent from the joined text.
pub proof fn lemma_join_free_of(ps: Seq<Seq<char>>, sep: char, c: char)
    requires
        c != sep,
        forall|k: int| 0 <= k < ps.len() ==> !contains_char(#[trigger] ps[k], c),
    ensures
        !contains_char(join_text(ps, sep), c),
    decreases ps.len(),
{
    if ps.len() == 0 {
        assert(!contains_char(seq![], c));
    } else if ps.len() == 1 {
    } else {
        lemma_join_free_of(ps.drop_first(), sep, c);
        assert(!contains_char(seq![sep], c));
        lemma_contains_concat(ps[0], seq![sep], c);
        lemma_contains_concat(ps[0] + seq![sep], join_text(ps.drop_first(), sep), c);
    }
}

/// The views of a sequence of owned strings.
pub open spec fn views_of(v: Seq<String>) -> Seq<Seq<char>> {
    v.map_values(|p: String| p@)
}

/// Splits `s` on every occurrence of the character `sep`.
pub fn split_str(s: &str, sep: char) -> (r: Vec<String>)
    ensures
        views_of(r@) == split_text(s@, sep),
        r@.len() >= 1,
{
    let len = s.unicode_len();
    let mut r: Vec<String> = Vec::new();
    let mut start: usize = 0;
    let mut i: usize = 0;
    proof {
        assert(s@.skip(0) =~= s@);
        assert(views_of(r@) =~= Seq::<Seq<char>>::empty());
    }
    while i < len
        invariant
            start <= i <= len,
            len == s@.len(),
            split_text(s@, sep) =~= views_of(r@) + split_text(s@.skip(start as int), sep),
            forall|j: int| start <= j < i ==> s@[j] != sep,
        decreases len - i,
    {
        if s.get_char(i) == sep {
            let piece = s.substring_char(start, i).to_owned();
            proof {
                let a = s@.subrange(start as int, i as int);
                let b = s@.skip(i as int + 1);
                assert(s@.skip(start as int) =~= a + seq![sep] + b);
                lemma_split_at(a, b, sep);
                assert(views_of(r@.push(piece)) =~= views_of(r@) + seq![a]);
            }
            r.push(piece);
            start = i + 1;
        }
        i += 1;
    }
    let piece = s.substring_char(start, len).to_owned();
    proof {
        let a = s@.subrange(start as int, len as int);
        assert(s@.skip(start as int) =~= a);
        lemma_split_no_sep(a, sep);
        assert(views_of(r@.push(piece)) =~= views_of(r@) + seq![a]);
    }
    r.push(piece);
    r
}

/// Whether `c` is an ASCII decimal digit.
pub open spec fn is_digit(c: char) -> bool {
    '0' <= c && c <= '9'
}

/// Whether every character of `s` is an ASCII decimal digit.
pub open spec fn all_digits(s: Seq<char>) -> bool {
    forall|i: int| 0 <= i < s.len() ==> is_digit(#[trigger] s[i])
}

/// Whether every character of `s` in `[from, to)` is an ASCII decimal digit.
pub fn check_digits_range(s: &str, from: usize, to: usize) -> (r: bool)
    requires
        from <= to <= s@.len(),
    ensures
        r == all_digits(s@.subrange(from as int, to as int)),
{
    let mut i = from;
    while i < to
        invariant
            from <= i <= to <= s@.len(),
            forall|j: int| from <= j < i ==> is_digit(#[trigger] s@[j]),
        decreases to - i,
    {
        let c = s.get_char(i);
        if !('0' <= c && c <= '9') {
            proof {
                assert(s@.subrange(from as int, to as int)[i - from] == c);
            }
            return false;
        }
        i += 1;
    }
    proof {
        assert forall|j: int| 0 <= j < to - from implies is_digit(
            #[trigger] s@.subrange(from as int, to as int)[j],
        ) by {
            assert(s@.subrange(from as int, to as int)[j] == s@[from + j]);
        }
    }
    true
}

/// Whether `s` (after an optional leading minus sign) is a decimal numeral:
/// digits, or digits on both sides of a single point.
pub open spec fn decimal_body_ok(s: Seq<char>) -> bool {
    (s.len() > 0 && all_digits(s)) || (exists|k: int|
        1 <= k <= s.len() - 2 && #[trigger] s[k] == '.' && all_digits(s.take(k)) && all_digits(
            s.skip(k + 1),
        ))
}

/// Whether `s` is the text of a signed decimal number, the form every
/// fractional quantity of this library (width, height, coordinate component,
/// rotation) is carried in.
pub open spec fn decimal_text_ok(s: Seq<char>) -> bool {
    if s.len() > 0 && s[0] == '-' {
        decimal_body_ok(s.skip(1))
    } else {
        decimal_body_ok(s)
    }
}

/// Every character of a decimal text is a digit, a point or a minus sign.
pub proof fn lemma_decimal_chars(s: Seq<char>)
    requires
        decimal_text_ok(s),
    ensures
        forall|i: int| 0 <= i < s.len() ==> is_digit(#[trigger] s[i]) || s[i] == '.' || s[i] == '-',
{
    let body = if s.len() > 0 && s[0] == '-' {
        s.skip(1)
    } else {
        s
    };
    let off: int = if s.len() > 0 && s[0] == '-' {
        1
    } else {
        0
    };
    assert forall|i: int| 0 <= i < s.len() implies is_digit(#[trigger] s[i]) || s[i] == '.' || s[i]
        == '-' by {
        if i >= off {
            assert(s[i] == body[i - off]);
            if !all_digits(body) {
                let k = choose|k: int|
                    1 <= k <= body.len() - 2 && #[trigger] body[k] == '.' && all_digits(
                        body.take(k),
                    ) && all_digits(body.skip(k + 1));
                if i - off < k {
                    assert(body.take(k)[i - off] == body[i - off]);
                } else if i - off > k {
                    assert(body.skip(k + 1)[i - off - (k + 1)] == body[i - off]);
                }
            }
        }
    }
}

/// Decides whether `s` is the text of a signed decimal number.
pub fn check_decimal_str(s: &str) -> (r: bool)
    ensures
        r == decimal_text_ok(s@),
{
    let len = s.unicode_len();
    let start: usize = if len > 0 && s.get_char(0) == '-' {
        1
    } else {
        0
    };
    let ghost body = s@.skip(start as int);
    proof {
        assert(s@.skip(0) =~= s@);
    }
    // find the first point, if any
    let mut dot: usize = len;
    let mut i: usize = start;
    loop
        invariant_except_break
            start <= i <= len,
            len == s@.len(),
            dot == len,
            forall|j: int| start <= j < i ==> s@[j] != '.',
        ensures
            start <= dot <= len,
            len == s@.len(),
            dot < len ==> s@[dot as int] == '.',
            forall|j: int| start <= j < dot ==> s@[j] != '.',
        decreases len - i,
    {
        if i >= len {
            break ;
        }
        if s.get_char(i) == '.' {
            dot = i;
            break ;
        }
        i += 1;
    }
    if dot == len {
        // no point: the body must be one or more digits
        let r = len > start && check_digits_range(s, start, len);
        proof {
            assert(body =~= s@.subrange(start as int, len as int));
            if r {
                assert(decimal_body_ok(body));
            } else {
                assert(!(body.len() > 0 && all_digits(body)));
                assert forall|k: int| !(1 <= k <= body.len() - 2 && #[trigger] body[k] == '.'
                    && all_digits(body.take(k)) && all_digits(body.skip(k + 1))) by {
                    if 1 <= k <= body.len() - 2 {
                        assert(body[k] == s@[start + k]);
                    }
                }
            }
        }
        r
    } else {
        // a point at `dot`: digits are required on both of its sides
        let ok = dot > start && dot + 1 < len && check_digits_range(s, start, dot)
            && check_digits_range(s, dot + 1, len);
        proof {
            assert(body =~= s@.subrange(start as int, len as int));
            let kd = dot - start;
            assert(body[kd as int] == s@[dot as int]);
            if ok {
                assert(body.take(kd as int) =~= s@.subrange(start as int, dot as int));
                assert(body.skip(kd + 1) =~= s@.subrange(dot + 1, len as int));
                assert(decimal_body_ok(body));
            } else {
                assert(!all_digits(body)) by {
                    assert(body[kd as int] == '.');
                }
                assert forall|k: int| !(1 <= k <= body.len() - 2 && #[trigger] body[k] == '.'
                    && all_digits(body.take(k)) && all_digits(body.skip(k + 1))) by {
                    if 1 <= k <= body.len() - 2 && body[k] == '.' && all_digits(body.take(k))
                        && all_digits(body.skip(k + 1)) {
                        if k < kd {
                            assert(s@[start + k] == body[k]);
                            assert(false);
                        } else if k > kd {
                            assert(body.take(k)[kd as int] == body[kd as int]);
                            assert(false);
                        } else {
                            assert(body.take(k) =~= s@.subrange(start as int, dot as int));
                            assert(body.skip(k + 1) =~= s@.subrange(dot + 1, len as int));
                            assert(false);
                        }
                    }
                }
            }
        }
        ok
    }
}

/// The numeric value of a digit character.
pub open spec fn digit_val(c: char) -> nat {
    (c as int - '0' as int) as nat
}

/// The value of a digit text read as a base-ten numeral.
pub open spec fn dec_val(s: Seq<char>) -> nat
    decreases s.len(),
{
    if s.len() == 0 {
        0
    } else {
        dec_val(s.drop_last()) * 10 + digit_val(s.last())
    }
}

/// What an unsigned-integer field decodes to: the numeral's value where the
/// text is one or more digits and fits, nothing otherwise.
pub open spec fn parse_u64_text(s: Seq<char>) -> Option<u64> {
    if s.len() > 0 && all_digits(s) && dec_val(s) <= u64::MAX {
        Some(dec_val(s) as u64)
    } else {
        None
    }
}

pub proof fn lemma_dec_val_take_le(s: Seq<char>, j: int)
    requires
        0 <= j <= s.len(),
    ensures
        dec_val(s.take(j)) <= dec_val(s),
    decreases s.len() - j,
{
    if j < s.len() {
        lemma_dec_val_take_le(s, j + 1);
        assert(s.take(j + 1).drop_last() =~= s.take(j));
        assert(dec_val(s.take(j + 1)) == dec_val(s.take(j)) * 10 + digit_val(s.take(j + 1).last()));
    } else {
        assert(s.take(j) =~= s);
    }
}

/// Reads `s` as an unsigned base-ten numeral.
pub fn parse_u64_str(s: &str) -> (r: Option<u64>)
    ensures
        r == parse_u64_text(s@),
{
    let len = s.unicode_len();
    if len == 0 {
        return None;
    }
    let mut acc: u64 = 0;
    let mut i: usize = 0;
    while i < len
        invariant
            0 <= i <= len,
            len == s@.len(),
            acc == dec_val(s@.take(i as int)),
            all_digits(s@.take(i as int)),
        decreases len - i,
    {
        let c = s.get_char(i);
        if !('0' <= c && c <= '9') {
            proof {
                assert(s@[i as int] == c);
            }
            return None;
        }
        let d: u64 = digit_value(c);
        if acc > (u64::MAX - d) / 10 {
            proof {
                assert(s@.take(i as int + 1).drop_last() =~= s@.take(i as int));
                assert(s@.take(i as int + 1).last() == c);
                assert(dec_val(s@.take(i as int + 1)) > u64::MAX) by {
                    assert(acc >= (u64::MAX - d) / 10 + 1);
                    assert(((u64::MAX - d) / 10 + 1) * 10 > u64::MAX - d) by (nonlinear_arith);
                    assert(acc * 10 >= ((u64::MAX - d) / 10 + 1) * 10) by (nonlinear_arith)
                        requires
                            acc >= (u64::MAX - d) / 10 + 1,
                    ;
                }
                lemma_dec_val_take_le(s@, i as int + 1);
                assert(s@.take(len as int) =~= s@);
            }
            return None;
        }
        proof {
            assert(acc * 10 <= ((u64::MAX - d) / 10) * 10) by (nonlinear_arith)
                requires
                    acc <= (u64::MAX - d) / 10,
            ;
            assert(((u64::MAX - d) / 10) * 10 <= u64::MAX - d) by (nonlinear_arith);
            assert(s@.take(i as int + 1).drop_last() =~= s@.take(i as int));
            assert(s@.take(i as int + 1).last() == c);
        }
        acc = acc * 10 + d;
        i += 1;
    }
    proof {
        assert(s@.take(len as int) =~= s@);
    }
    Some(acc)
}

/// The numeric value of one digit character.
fn digit_value(c: char) -> (r: u64)
    requires
        is_digit(c),
    ensures
        r == digit_val(c),
        r <= 9,
{
    if c == '0' {
        0
    } else if c == '1' {
        1
    } else if c == '2' {
        2
    } else if c == '3' {
        3
    } else if c == '4' {
        4
    } else if c == '5' {
        5
    } else if c == '6' {
        6
    } else if c == '7' {
        7
    } else if c == '8' {
        8
    } else {
        9
    }
}

/// The digit character of a value below ten.
pub open spec fn digit_char(d: nat) -> char {
    if d == 0 {
        '0'
    } else if d == 1 {
        '1'
    } else if d == 2 {
        '2'
    } else if d == 3 {
        '3'
    } else if d == 4 {
        '4'
    } else if d == 5 {
        '5'
    } else if d == 6 {
        '6'
    } else if d == 7 {
        '7'
    } else if d == 8 {
        '8'
    } else {
        '9'
    }
}

/// The base-ten text of `n`: one digit for values below ten, the text of the
/// leading digits followed by the last digit otherwise.
pub open spec fn dec_text(n: nat) -> Seq<char>
    decreases n,
{
    if n < 10 {
        seq![digit_char(n)]
    } else {
        dec_text(n / 10).push(digit_char(n % 10))
    }
}

/// The pieces concatenated in reverse order of their position.
pub open spec fn rev_concat(ps: Seq<Seq<char>>) -> Seq<char>
    decreases ps.len(),
{
    if ps.len() == 0 {
        seq![]
    } else {
        ps.last() + rev_concat(ps.drop_last())
    }
}

pub proof fn lemma_rev_concat_first(ps: Seq<Seq<char>>)
    requires
        ps.len() >= 1,
    ensures
        rev_concat(ps) == rev_concat(ps.drop_first()) + ps[0],
    decreases ps.len(),
{
    if ps.len() == 1 {
        assert(ps.drop_last() =~= Seq::<Seq<char>>::empty());
        assert(ps.drop_first() =~= Seq::<Seq<char>>::empty());
        assert(ps.last() + rev_concat(ps.drop_last()) =~= rev_concat(ps.drop_first()) + ps[0]);
    } else {
        lemma_rev_concat_first(ps.drop_last());
        assert(ps.drop_last().drop_first() =~= ps.drop_first().drop_last());
        assert(ps.drop_last()[0] == ps[0]);
        assert(rev_concat(ps.drop_first()) == ps.drop_first().last() + rev_concat(
            ps.drop_first().drop_last(),
        ));
        assert(ps.drop_first().last() == ps.last());
        assert(ps.last() + (rev_concat(ps.drop_last().drop_first()) + ps[0]) =~= (ps.last()
            + rev_concat(ps.drop_first().drop_last())) + ps[0]);
    }
}

/// A decimal rendering is non-empty, all digits, and reads back to its value.
pub proof fn lemma_dec_text(n: nat)
    ensures
        dec_text(n).len() >= 1,
        all_digits(dec_text(n)),
        dec_val(dec_text(n)) == n,
    decreases n,
{
    if n < 10 {
        assert(dec_val(dec_text(n)) == dec_val(seq![digit_char(n)].drop_last()) * 10 + digit_val(
            digit_char(n),
        ));
        assert(seq![digit_char(n)].drop_last() =~= Seq::<char>::empty());
    } else {
        lemma_dec_text(n / 10);
        let t = dec_text(n / 10).push(digit_char((n % 10) as nat));
        assert(t.drop_last() =~= dec_text(n / 10));
        assert(forall|i: int|
            0 <= i < t.len() ==> #[trigger] t[i] == if i < t.len() - 1 {
                dec_text(n / 10)[i]
            } else {
                digit_char((n % 10) as nat)
            });
    }
}

/// One digit, as a borrowed one-character text.
fn digit_str(d: u128) -> (r: &'static str)
    requires
        d <= 9,
    ensures
        r@ =~= seq![digit_char(d as nat)],
{
    proof {
        reveal_strlit("0");
        reveal_strlit("1");
        reveal_strlit("2");
        reveal_strlit("3");
        reveal_strlit("4");
        reveal_strlit("5");
        reveal_strlit("6");
        reveal_strlit("7");
        reveal_strlit("8");
        reveal_strlit("9");
    }
    if d == 0 {
        "0"
    } else if d == 1 {
        "1"
    } else if d == 2 {
        "2"
    } else if d == 3 {
        "3"
    } else if d == 4 {
        "4"
    } else if d == 5 {
        "5"
    } else if d == 6 {
        "6"
    } else if d == 7 {
        "7"
    } else if d == 8 {
        "8"
    } else {
        "9"
    }
}

/// Writes `n` in base ten.
pub fn format_u128(n: u128) -> (r: String)
    ensures
        r@ == dec_text(n as nat),
{
    let mut digits: Vec<&'static str> = Vec::new();
    let mut m = n;
    loop
        invariant_except_break
            digits@.len() == 0 ==> m == n,
            digits@.len() > 0 ==> m > 0 && dec_text(n as nat) == dec_text(m as nat) + rev_concat(
                views_of_str(digits@),
            ),
        ensures
            dec_text(n as nat) == rev_concat(views_of_str(digits@)),
        decreases m, (if digits@.len() == 0 { 1int } else { 0int }),
    {
        let p = digit_str(m % 10);
        proof {
            let ds = views_of_str(digits@);
            let ds2 = views_of_str(digits@.push(p));
            assert(ds2.last() =~= p@);
            assert(ds2.drop_last() =~= ds);
            assert(rev_concat(ds2) == p@ + rev_concat(ds));
            if m >= 10 {
                assert(dec_text(m as nat) == dec_text((m / 10) as nat) + seq![
                    digit_char((m % 10) as nat),
                ]) by {
                    assert(dec_text((m / 10) as nat).push(digit_char((m % 10) as nat)) =~= dec_text(
                        (m / 10) as nat,
                    ) + seq![digit_char((m % 10) as nat)]);
                }
                if digits@.len() > 0 {
                    assert(dec_text(m as nat) + rev_concat(ds) =~= dec_text((m / 10) as nat) + (p@
                        + rev_concat(ds)));
                }
            } else {
                assert(dec_text(m as nat) =~= p@);
            }
            assert((dec_text(m as nat) + rev_concat(ds)) =~= dec_text(m as nat) + rev_concat(ds));
            if digits@.len() > 0 && m >= 10 {
                assert(dec_text((m / 10) as nat) + (p@ + rev_concat(ds)) =~= dec_text(
                    (m / 10) as nat,
                ) + rev_concat(ds2));
            }
            if digits@.len() == 0 && m >= 10 {
                assert(dec_text(n as nat) =~= dec_text((m / 10) as nat) + rev_concat(ds2));
            }
            if m < 10 {
                if digits@.len() == 0 {
                    assert(dec_text(n as nat) =~= rev_concat(ds2));
                } else {
                    assert(dec_text(n as nat) =~= (p@ + rev_concat(ds)));
                    assert(dec_text(n as nat) =~= rev_concat(ds2));
                }
            }
        }
        digits.push(p);
        m = m / 10;
        if m == 0 {
            break ;
        }
    }
    let mut r = String::new();
    let mut j = digits.len();
    proof {
        assert(views_of_str(digits@).skip(digits@.len() as int) =~= Seq::<Seq<char>>::empty());
    }
    while j > 0
        invariant
            j <= digits@.len(),
            r@ == rev_concat(views_of_str(digits@).skip(j as int)),
        decreases j,
    {
        j = j - 1;
        proof {
            let ds = views_of_str(digits@);
            lemma_rev_concat_first(ds.skip(j as int));
            assert(ds.skip(j as int).drop_first() =~= ds.skip(j as int + 1));
            assert(ds.skip(j as int)[0] =~= digits@[j as int]@);
        }
        r.append(digits[j]);
    }
    proof {
        assert(views_of_str(digits@).skip(0) =~= views_of_str(digits@));
    }
    r
}

/// The views of a sequence of borrowed strings.
pub open spec fn views_of_str(v: Seq<&str>) -> Seq<Seq<char>> {
    v.map_values(|p: &str| p@)
}

/// Writes `n` in base ten.
pub fn format_u64(n: u64) -> (r: String)
    ensures
        r@ == dec_text(n as nat),
{
    format_u128(n as u128)
}

/// Joins the strings with the one-character separator text `sep_str`.
pub fn join_strings(ps: &Vec<String>, sep: char, sep_str: &str) -> (r: String)
    requires
        sep_str@ =~= seq![sep],
    ensures
        r@ == join_text(views_of(ps@), sep),
{
    if ps.len() == 0 {
        return String::new();
    }
    let mut r = ps[0].clone();
    let mut i: usize = 1;
    proof {
        assert(views_of(ps@).take(1) =~= seq![ps@[0]@]);
    }
    while i < ps.len()
        invariant
            1 <= i <= ps@.len(),
            sep_str@ =~= seq![sep],
            r@ == join_text(views_of(ps@).take(i as int), sep),
        decreases ps@.len() - i,
    {
        proof {
            lemma_join_push(views_of(ps@).take(i as int), ps@[i as int]@, sep);
            assert(views_of(ps@).take(i as int).push(ps@[i as int]@) =~= views_of(ps@).take(
                i as int + 1,
            ));
        }
        r.append(sep_str);
        r.append(ps[i].as_str());
        i += 1;
    }
    proof {
        assert(views_of(ps@).take(ps@.len() as int) =~= views_of(ps@));
    }
    r
}

pub proof fn lemma_join_push(ps: Seq<Seq<char>>, p: Seq<char>, sep: char)
    requires
        ps.len() >= 1,
    ensures
        join_text(ps.push(p), sep) == join_text(ps, sep) + seq![sep] + p,
    decreases ps.len(),
{
    if ps.len() == 1 {
        assert(ps.push(p).len() == 2);
        assert(ps.push(p).drop_first() =~= seq![p]);
        assert(join_text(seq![p], sep) == p);
        assert(join_text(ps.push(p), sep) == ps.push(p)[0] + seq![sep] + join_text(
            ps.push(p).drop_first(),
            sep,
        ));
        assert(ps.push(p)[0] == ps[0]);
        assert(ps[0] + seq![sep] + p =~= join_text(ps, sep) + seq![sep] + p);
    } else {
        lemma_join_push(ps.drop_first(), p, sep);
        assert(ps.push(p).len() >= 3);
        assert(ps.push(p).drop_first() =~= ps.drop_first().push(p));
        assert(join_text(ps.push(p), sep) == ps.push(p)[0] + seq![sep] + join_text(
            ps.push(p).drop_first(),
            sep,
        ));
        assert(ps.push(p)[0] == ps[0]);
        assert(ps[0] + seq![sep] + (join_text(ps.drop_first(), sep) + seq![sep] + p) =~= (ps[0]
            + seq![sep] + join_text(ps.drop_first(), sep)) + seq![sep] + p);
    }
}

} // verus!
