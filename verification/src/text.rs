//! Small operations on text that the rest of the crate shares.

use vstd::prelude::*;

verus! {

/// The texts that a vector of strings holds, in order.
pub open spec fn texts(v: Seq<String>) -> Seq<Seq<char>> {
    Seq::new(v.len(), |i: int| v[i]@)
}

/// The first place at which `item` stands in `items`, if it stands anywhere.
pub open spec fn position_of<A>(items: Seq<A>, item: A) -> Option<int>
    decreases items.len(),
{
    if items.len() == 0 {
        None
    } else {
        match position_of(items.drop_last(), item) {
            Some(i) => Some(i),
            None => if items.last() == item {
                Some(items.len() - 1)
            } else {
                None
            },
        }
    }
}

/// `position_of` gives the least index that holds `item`, and `None` exactly
/// where no index does.
pub proof fn lemma_position_of<A>(items: Seq<A>, item: A)
    ensures
        match position_of(items, item) {
            Some(i) => 0 <= i < items.len() && items[i] == item && forall|j: int|
                0 <= j < i ==> items[j] != item,
            None => forall|j: int| 0 <= j < items.len() ==> items[j] != item,
        },
    decreases items.len(),
{
    if items.len() > 0 {
        lemma_position_of(items.drop_last(), item);
        assert(forall|j: int| 0 <= j < items.len() - 1 ==> items.drop_last()[j] == items[j]);
    }
}

/// An index that holds `item`, with no earlier one that does, is its position.
pub proof fn lemma_position_is<A>(items: Seq<A>, item: A, i: int)
    requires
        0 <= i < items.len(),
        items[i] == item,
        forall|j: int| 0 <= j < i ==> items[j] != item,
    ensures
        position_of(items, item) == Some(i),
{
    lemma_position_of(items, item);
    match position_of(items, item) {
        Some(p) => {
            if p < i {
                assert(items[p] != item);
            } else if p > i {
                assert(items[i] != item);
            }
        },
        None => {
            assert(items[i] != item);
        },
    }
}

/// An item that no index holds has no position.
pub proof fn lemma_position_none<A>(items: Seq<A>, item: A)
    requires
        forall|j: int| 0 <= j < items.len() ==> items[j] != item,
    ensures
        position_of(items, item) is None,
{
    lemma_position_of(items, item);
    if position_of(items, item) is Some {
        let p = position_of(items, item)->0;
        assert(items[p] != item);
    }
}

/// Finds the first place at which `name` stands in `names`.
pub fn find_text(names: &Vec<String>, name: &str) -> (r: Option<usize>)
    ensures
        match r {
            Some(i) => position_of(texts(names@), name@) == Some(i as int),
            None => position_of(texts(names@), name@) is None,
        },
{
    let mut i: usize = 0;
    while i < names.len()
        invariant
            i <= names.len(),
            forall|j: int| 0 <= j < i ==> texts(names@)[j] != name@,
        decreases names.len() - i,
    {
        if str_equal(names[i].as_str(), name) {
            proof {
                assert(texts(names@)[i as int] == name@);
                lemma_position_is(texts(names@), name@, i as int);
            }
            return Some(i);
        }
        i = i + 1;
    }
    proof {
        lemma_position_none(texts(names@), name@);
    }
    None
}

/// Whether each of `names` stands somewhere in `header`.
pub open spec fn columns_found(header: Seq<Seq<char>>, names: Seq<Seq<char>>) -> bool {
    forall|k: int| 0 <= k < names.len() ==> position_of(header, #[trigger] names[k]) is Some
}

/// For each of `names`, the first place at which it stands in `header`.
pub open spec fn column_places(header: Seq<Seq<char>>, names: Seq<Seq<char>>) -> Seq<int> {
    Seq::new(names.len(), |k: int| position_of(header, names[k])->0)
}

/// Looks up each of `names` in `header`; `None` where one of them is missing.
pub fn locate_columns(header: &Vec<String>, names: &Vec<String>) -> (r: Option<Vec<usize>>)
    ensures
        r is Some <==> columns_found(texts(header@), texts(names@)),
        r matches Some(places) ==> places@.map_values(|p: usize| p as int) == column_places(
            texts(header@),
            texts(names@),
        ) && forall|k: int| 0 <= k < places.len() ==> #[trigger] places[k] < header.len(),
{
    let mut places: Vec<usize> = Vec::new();
    let mut k: usize = 0;
    while k < names.len()
        invariant
            k <= names.len(),
            places.len() == k,
            forall|j: int|
                0 <= j < k ==> position_of(texts(header@), #[trigger] texts(names@)[j]) == Some(
                    places[j] as int,
                ),
            forall|j: int| 0 <= j < k ==> #[trigger] places[j] < header.len(),
        decreases names.len() - k,
    {
        match find_text(header, names[k].as_str()) {
            Some(place) => {
                proof {
                    lemma_position_of(texts(header@), names[k as int]@);
                }
                places.push(place);
            },
            None => {
                assert(position_of(texts(header@), texts(names@)[k as int]) is None);
                return None;
            },
        }
        k = k + 1;
    }
    assert(places@.map_values(|p: usize| p as int) =~= column_places(
        texts(header@),
        texts(names@),
    ));
    Some(places)
}

/// The items of a comma-separated list: what stands between its commas. A
/// text without a comma is one item, and the empty text is one empty item.
pub open spec fn comma_pieces(list: Seq<char>) -> Seq<Seq<char>>
    decreases list.len(),
{
    if list.len() == 0 {
        seq![Seq::empty()]
    } else {
        let front = comma_pieces(list.drop_last());
        if list.last() == ',' {
            front.push(Seq::empty())
        } else {
            front.drop_last().push(front.last().push(list.last()))
        }
    }
}

/// `pieces` written one after the other with a comma between neighbours.
pub open spec fn join_commas(pieces: Seq<Seq<char>>) -> Seq<char>
    decreases pieces.len(),
{
    if pieces.len() == 0 {
        Seq::empty()
    } else if pieces.len() == 1 {
        pieces[0]
    } else {
        join_commas(pieces.drop_last()) + seq![','] + pieces.last()
    }
}

/// No comma occurs in `piece`.
pub open spec fn comma_free(piece: Seq<char>) -> bool {
    forall|i: int| 0 <= i < piece.len() ==> piece[i] != ','
}

/// The items of a list hold no comma, and joined with commas they give the
/// list back.
pub proof fn lemma_comma_pieces(list: Seq<char>)
    ensures
        comma_pieces(list).len() >= 1,
        join_commas(comma_pieces(list)) == list,
        forall|i: int|
            0 <= i < comma_pieces(list).len() ==> comma_free(#[trigger] comma_pieces(list)[i]),
    decreases list.len(),
{
    if list.len() == 0 {
        assert(join_commas(comma_pieces(list)) =~= list);
    } else {
        let short = list.drop_last();
        let front = comma_pieces(short);
        let c = list.last();
        lemma_comma_pieces(short);
        assert(list == short.push(c));
        if c == ',' {
            let all = front.push(Seq::<char>::empty());
            assert(all.drop_last() == front);
            assert(join_commas(all) =~= list);
        } else {
            let grown = front.last().push(c);
            let all = front.drop_last().push(grown);
            assert(all.drop_last() == front.drop_last());
            assert(comma_free(grown));
            if front.len() == 1 {
                assert(join_commas(all) =~= list);
            } else {
                assert(join_commas(front) == join_commas(front.drop_last()) + seq![','] + front.last());
                assert(join_commas(all) =~= list);
            }
            assert forall|i: int| 0 <= i < all.len() implies comma_free(#[trigger] all[i]) by {
                if i < all.len() - 1 {
                    assert(all[i] == front[i]);
                }
            }
        }
    }
}

/// Cuts a comma-separated list into its items.
pub fn split_commas(list: &str) -> (pieces: Vec<String>)
    ensures
        texts(pieces@) == comma_pieces(list@),
{
    let n: usize = list.unicode_len();
    let mut pieces: Vec<String> = Vec::new();
    let mut start: usize = 0;
    let mut i: usize = 0;
    assert(list@.subrange(0, 0) == Seq::<char>::empty());
    assert(texts(pieces@).push(list@.subrange(0, 0)) == seq![Seq::<char>::empty()]);
    while i < n
        invariant
            n == list@.len(),
            start <= i <= n,
            texts(pieces@).push(list@.subrange(start as int, i as int)) == comma_pieces(
                list@.subrange(0, i as int),
            ),
        decreases n - i,
    {
        let ghost done = texts(pieces@);
        let ghost current = list@.subrange(start as int, i as int);
        let c: char = list.get_char(i);
        proof {
            assert(list@.subrange(0, i + 1).drop_last() == list@.subrange(0, i as int));
            assert(done.push(current).drop_last() == done);
        }
        if c == ',' {
            pieces.push(String::from_str(list.substring_char(start, i)));
            start = i + 1;
            proof {
                assert(texts(pieces@) == done.push(current));
                assert(list@.subrange(start as int, start as int) == Seq::<char>::empty());
            }
        } else {
            proof {
                assert(list@.subrange(start as int, i + 1) == current.push(c));
            }
        }
        i = i + 1;
    }
    let ghost done = texts(pieces@);
    pieces.push(String::from_str(list.substring_char(start, n)));
    proof {
        assert(texts(pieces@) == done.push(list@.subrange(start as int, n as int)));
        assert(list@.subrange(0, n as int) == list@);
    }
    pieces
}

/// `text` followed by as many spaces as it takes to reach `width` characters;
/// `text` itself where it is that long already.
pub open spec fn padded(text: Seq<char>, width: nat) -> Seq<char> {
    if text.len() >= width {
        text
    } else {
        text + Seq::new((width - text.len()) as nat, |i: int| ' ')
    }
}

/// Pads `text` with spaces on the right to a column of `width` characters.
pub fn pad_right(text: &str, width: usize) -> (out: String)
    ensures
        out@ == padded(text@, width as nat),
{
    let n: usize = text.unicode_len();
    let mut out: String = String::from_str(text);
    let mut i: usize = n;
    while i < width
        invariant
            n == text@.len(),
            n <= i,
            i <= width || i == n,
            out@ == text@ + Seq::new((i - n) as nat, |k: int| ' '),
        decreases width - i,
    {
        proof {
            reveal_strlit(" ");
            assert(" "@ == seq![' ']);
            assert(Seq::new((i - n) as nat, |k: int| ' ') + seq![' '] == Seq::new(
                (i + 1 - n) as nat,
                |k: int| ' ',
            ));
        }
        out.append(" ");
        i = i + 1;
    }
    assert(text@ + Seq::new(0nat, |k: int| ' ') == text@);
    out
}

/// `text` after as many spaces as it takes to reach `width` characters;
/// `text` itself where it is that long already.
pub open spec fn padded_left(text: Seq<char>, width: nat) -> Seq<char> {
    if text.len() >= width {
        text
    } else {
        Seq::new((width - text.len()) as nat, |i: int| ' ') + text
    }
}

/// Pads `text` with spaces on the left to a column of `width` characters.
pub fn pad_left(text: &str, width: usize) -> (out: String)
    ensures
        out@ == padded_left(text@, width as nat),
{
    let n: usize = text.unicode_len();
    let mut out: String = String::new();
    let mut i: usize = n;
    while i < width
        invariant
            n == text@.len(),
            n <= i,
            i <= width || i == n,
            out@ == Seq::new((i - n) as nat, |k: int| ' '),
        decreases width - i,
    {
        proof {
            reveal_strlit(" ");
            assert(" "@ == seq![' ']);
            assert(Seq::new((i - n) as nat, |k: int| ' ') + seq![' '] == Seq::new(
                (i + 1 - n) as nat,
                |k: int| ' ',
            ));
        }
        out.append(" ");
        i = i + 1;
    }
    out.append(text);
    assert(Seq::new(0nat, |k: int| ' ') + text@ == text@);
    out
}

/// The text of a truth value: `true` or `false`.
pub open spec fn flag_text(flag: bool) -> Seq<char> {
    if flag {
        "true"@
    } else {
        "false"@
    }
}

/// Writes a truth value as `true` or `false`.
pub fn flag_to_string(flag: bool) -> (out: String)
    ensures
        out@ == flag_text(flag),
{
    if flag {
        String::from_str("true")
    } else {
        String::from_str("false")
    }
}

/// The truth value that a text stands for: `None` for any text but `true`
/// and `false`.
pub open spec fn flag_reading(text: Seq<char>) -> Option<bool> {
    if text == flag_text(true) {
        Some(true)
    } else if text == flag_text(false) {
        Some(false)
    } else {
        None
    }
}

/// Reads a truth value back from `true` or `false`.
pub fn flag_from_str(text: &str) -> (r: Option<bool>)
    ensures
        r == flag_reading(text@),
{
    proof {
        reveal_strlit("true");
        reveal_strlit("false");
        assert("true"@ != "false"@) by {
            assert("true"@.len() == 4);
            assert("false"@.len() == 5);
        }
    }
    if str_equal(text, "true") {
        Some(true)
    } else if str_equal(text, "false") {
        Some(false)
    } else {
        None
    }
}

/// Tells whether two texts hold the same characters.
pub fn str_equal(a: &str, b: &str) -> (same: bool)
    ensures
        same == (a@ == b@),
{
    let n: usize = a.unicode_len();
    if n != b.unicode_len() {
        return false;
    }
    let mut i: usize = 0;
    while i < n
        invariant
            n == a@.len(),
            n == b@.len(),
            i <= n,
            forall|k: int| 0 <= k < i ==> a@[k] == b@[k],
        decreases n - i,
    {
        if a.get_char(i) != b.get_char(i) {
            return false;
        }
        i = i + 1;
    }
    assert(a@ =~= b@);
    true
}

/// The character of a decimal digit.
pub open spec fn digit_char(digit: int) -> char {
    if digit == 0 {
        '0'
    } else if digit == 1 {
        '1'
    } else if digit == 2 {
        '2'
    } else if digit == 3 {
        '3'
    } else if digit == 4 {
        '4'
    } else if digit == 5 {
        '5'
    } else if digit == 6 {
        '6'
    } else if digit == 7 {
        '7'
    } else if digit == 8 {
        '8'
    } else {
        '9'
    }
}

/// The decimal digits of a natural number, without leading zeros.
pub open spec fn decimal_digits(n: nat) -> Seq<char>
    decreases n,
{
    if n < 10 {
        seq![digit_char(n as int)]
    } else {
        decimal_digits(n / 10).push(digit_char((n % 10) as int))
    }
}

/// The decimal text of an integer: its digits, after a minus sign where it is
/// negative.
pub open spec fn decimal_text(n: int) -> Seq<char> {
    if n < 0 {
        seq!['-'] + decimal_digits((-n) as nat)
    } else {
        decimal_digits(n as nat)
    }
}

fn digit_str(digit: u128) -> (text: &'static str)
    requires
        digit < 10,
    ensures
        text@ == seq![digit_char(digit as int)],
{
    proof {
        reveal_strlit("0");
        reveal_strlit("1");
        reveal_strlit("2");
        reveal_strlit("3");
        reveal_strlit("4");
        reveal_strlit("5");
        reveal_strlit("6");
        reveal_strlit("7");
        reveal_strlit("8");
        reveal_strlit("9");
    }
    let text = if digit == 0 {
        "0"
    } else if digit == 1 {
        "1"
    } else if digit == 2 {
        "2"
    } else if digit == 3 {
        "3"
    } else if digit == 4 {
        "4"
    } else if digit == 5 {
        "5"
    } else if digit == 6 {
        "6"
    } else if digit == 7 {
        "7"
    } else if digit == 8 {
        "8"
    } else {
        "9"
    };
    assert(text@ =~= seq![digit_char(digit as int)]);
    text
}

/// Appends the decimal digits of `n` to `out`.
pub fn append_digits(out: &mut String, n: u128)
    ensures
        final(out)@ == old(out)@ + decimal_digits(n as nat),
    decreases n,
{
    if n >= 10 {
        append_digits(out, n / 10);
    }
    out.append(digit_str(n % 10));
    assert(final(out)@ == old(out)@ + decimal_digits(n as nat)) by {
        if n >= 10 {
            assert(out@ =~= old(out)@ + decimal_digits((n / 10) as nat).push(
                digit_char((n % 10) as int),
            ));
        }
    }
}

/// Writes an integer in decimal.
pub fn number_to_string(n: i128) -> (out: String)
    ensures
        out@ == decimal_text(n as int),
{
    let mut out: String = String::new();
    if n < 0 {
        let magnitude: u128 = ((-(n + 1)) as u128) + 1;
        proof {
            reveal_strlit("-");
            assert("-"@ == seq!['-']);
        }
        out.append("-");
        append_digits(&mut out, magnitude);
    } else {
        append_digits(&mut out, n as u128);
        assert(out@ =~= decimal_digits(n as nat));
    }
    out
}

/// The value of a decimal digit; `None` for any other character.
pub open spec fn digit_value(c: char) -> Option<int> {
    if c == '0' {
        Some(0)
    } else if c == '1' {
        Some(1)
    } else if c == '2' {
        Some(2)
    } else if c == '3' {
        Some(3)
    } else if c == '4' {
        Some(4)
    } else if c == '5' {
        Some(5)
    } else if c == '6' {
        Some(6)
    } else if c == '7' {
        Some(7)
    } else if c == '8' {
        Some(8)
    } else if c == '9' {
        Some(9)
    } else {
        None
    }
}

/// The natural number that a row of decimal digits stands for: `None` where
/// a character is no digit. The empty row stands for zero.
pub open spec fn digits_value(digits: Seq<char>) -> Option<int>
    decreases digits.len(),
{
    if digits.len() == 0 {
        Some(0)
    } else {
        match (digits_value(digits.drop_last()), digit_value(digits.last())) {
            (Some(front), Some(last)) => Some(front * 10 + last),
            _ => None,
        }
    }
}

/// The number that a text stands for: one or more decimal digits that give a
/// value of at most `limit`. `None` for any other text.
pub open spec fn number_reading(text: Seq<char>, limit: int) -> Option<int> {
    if text.len() == 0 {
        None
    } else {
        match digits_value(text) {
            Some(value) => if value <= limit {
                Some(value)
            } else {
                None
            },
            None => None,
        }
    }
}

proof fn lemma_digits_value_grows(digits: Seq<char>, n: int)
    requires
        0 <= n <= digits.len(),
        digits_value(digits) is Some,
    ensures
        digits_value(digits.take(n)) is Some,
        0 <= digits_value(digits.take(n))->0 <= digits_value(digits)->0,
    decreases digits.len() - n,
{
    if n == digits.len() {
        assert(digits.take(n) == digits);
        lemma_digits_value_not_negative(digits);
    } else {
        lemma_digits_value_grows(digits, n + 1);
        assert(digits.take(n + 1).drop_last() == digits.take(n));
    }
}

proof fn lemma_digits_value_not_negative(digits: Seq<char>)
    requires
        digits_value(digits) is Some,
    ensures
        digits_value(digits)->0 >= 0,
    decreases digits.len(),
{
    if digits.len() > 0 {
        lemma_digits_value_not_negative(digits.drop_last());
    }
}

proof fn lemma_digits_value_of_prefix(digits: Seq<char>, n: int)
    requires
        0 <= n <= digits.len(),
        digits_value(digits.take(n)) is None,
    ensures
        digits_value(digits) is None,
    decreases digits.len() - n,
{
    if n == digits.len() {
        assert(digits.take(n) == digits);
    } else {
        assert(digits.take(n + 1).drop_last() == digits.take(n));
        lemma_digits_value_of_prefix(digits, n + 1);
    }
}

/// Reads a number of at most `limit` from its decimal digits.
pub fn parse_number(text: &str, limit: u64) -> (r: Option<u64>)
    ensures
        match r {
            Some(value) => number_reading(text@, limit as int) == Some(value as int),
            None => number_reading(text@, limit as int) is None,
        },
{
    let n: usize = text.unicode_len();
    if n == 0 {
        return None;
    }
    let mut value: u64 = 0;
    let mut i: usize = 0;
    assert(text@.take(0) == Seq::<char>::empty());
    while i < n
        invariant
            n == text@.len(),
            i <= n,
            value <= limit,
            digits_value(text@.take(i as int)) == Some(value as int),
        decreases n - i,
    {
        let c: char = text.get_char(i);
        proof {
            assert(text@.take(i + 1).drop_last() == text@.take(i as int));
            assert(text@.take(i + 1).last() == c);
        }
        let digit: u64 = if c == '0' {
            0
        } else if c == '1' {
            1
        } else if c == '2' {
            2
        } else if c == '3' {
            3
        } else if c == '4' {
            4
        } else if c == '5' {
            5
        } else if c == '6' {
            6
        } else if c == '7' {
            7
        } else if c == '8' {
            8
        } else if c == '9' {
            9
        } else {
            proof {
                assert(digits_value(text@.take(i + 1)) is None);
                lemma_digits_value_of_prefix(text@, i + 1);
            }
            return None;
        };
        assert(digit_value(c) == Some(digit as int));
        if digit > limit || value > (limit - digit) / 10 {
            proof {
                // With this digit the value is over the limit, and further
                // digits only make it larger.
                assert(value * 10 + digit > limit) by (nonlinear_arith)
                    requires
                        digit > limit || value > (limit - digit) / 10,
                        digit >= 0,
                        value >= 0,
                {
                }
                if digits_value(text@) is Some {
                    lemma_digits_value_grows(text@, i + 1);
                }
            }
            return None;
        }
        assert(value * 10 + digit <= limit) by (nonlinear_arith)
            requires
                digit <= limit,
                value <= (limit - digit) / 10,
        {
        }
        value = value * 10 + digit;
        i = i + 1;
    }
    assert(text@.take(n as int) == text@);
    Some(value)
}

/// The text of a number of thousandths: the whole part, a point and three
/// decimals, after a minus sign where the number is negative.
pub open spec fn thousandths_text(n: int) -> Seq<char> {
    let magnitude: nat = if n < 0 {
        (-n) as nat
    } else {
        n as nat
    };
    let sign: Seq<char> = if n < 0 {
        seq!['-']
    } else {
        Seq::empty()
    };
    sign + decimal_digits(magnitude / 1000) + seq![
        '.',
        digit_char(((magnitude / 100) % 10) as int),
        digit_char(((magnitude / 10) % 10) as int),
        digit_char((magnitude % 10) as int),
    ]
}

/// Writes a number of thousandths with a decimal point.
pub fn thousandths_to_string(n: i128) -> (out: String)
    ensures
        out@ == thousandths_text(n as int),
{
    let mut out: String = String::new();
    let magnitude: u128 = if n < 0 {
        proof {
            reveal_strlit("-");
            assert("-"@ == seq!['-']);
        }
        out.append("-");
        ((-(n + 1)) as u128) + 1
    } else {
        n as u128
    };
    proof {
        reveal_strlit(".");
        assert("."@ == seq!['.']);
    }
    append_digits(&mut out, magnitude / 1000);
    out.append(".");
    out.append(digit_str((magnitude / 100) % 10));
    out.append(digit_str((magnitude / 10) % 10));
    out.append(digit_str(magnitude % 10));
    assert(out@ =~= thousandths_text(n as int));
    out
}

} // verus!
