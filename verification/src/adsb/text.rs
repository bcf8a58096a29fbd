//! Text as sequences of characters: splitting at a separator, lines, and
//! decimal numerals.

use vstd::prelude::*;

verus! {

/// Appends one character to a string. This is `String::push` of the standard
/// library, which is trusted to put the character at the end and to leave the
/// rest as it was.
#[verifier::external_body]
pub(crate) fn push_char(text: &mut String, c: char)
    ensures
        final(text)@ == old(text)@.push(c),
{
    text.push(c);
}

/// The characters of a text.
pub fn chars_of(text: &str) -> (r: Vec<char>)
    ensures
        r@ == text@,
{
    let mut r: Vec<char> = Vec::new();
    for c in it: text.chars()
        invariant
            it.seq() == text@,
            r@ == it.seq().take(it.index() as int),
    {
        r.push(c);
        assert(it.seq().take(it.index() + 1) =~= it.seq().take(it.index() as int).push(c));
    }
    assert(text@.take(text@.len() as int) =~= text@);
    r
}

/// The text made of the characters.
pub fn string_of(chars: &Vec<char>) -> (r: String)
    ensures
        r@ == chars@,
{
    let mut r: String = String::new();
    let n: usize = chars.len();
    let mut i: usize = 0;
    while i < n
        invariant
            i <= n,
            n == chars@.len(),
            r@ == chars@.take(i as int),
        decreases n - i,
    {
        push_char(&mut r, chars[i]);
        assert(chars@.take(i + 1) =~= chars@.take(i as int).push(chars@[i as int]));
        i += 1;
    }
    assert(chars@.take(n as int) =~= chars@);
    r
}

/// The pieces into which the separator cuts a text, read from left to right:
/// a separator closes the piece before it and opens a new one, and any other
/// character joins the piece that is open. There is always at least one piece.
pub open spec fn pieces(text: Seq<char>, separator: char) -> Seq<Seq<char>>
    decreases text.len(),
{
    if text.len() == 0 {
        seq![Seq::empty()]
    } else {
        let before = pieces(text.drop_last(), separator);
        if text.last() == separator {
            before.push(Seq::empty())
        } else {
            before.update(before.len() - 1, before.last().push(text.last()))
        }
    }
}

/// The pieces put together again with the separator between them.
pub open spec fn joined(parts: Seq<Seq<char>>, separator: char) -> Seq<char>
    decreases parts.len(),
{
    if parts.len() == 0 {
        Seq::empty()
    } else if parts.len() == 1 {
        parts[0]
    } else {
        joined(parts.drop_last(), separator).push(separator) + parts.last()
    }
}

/// Cutting a text loses nothing: there is at least one piece, no piece holds
/// the separator, and the pieces joined by the separator are the text.
pub proof fn lemma_pieces(text: Seq<char>, separator: char)
    ensures
        pieces(text, separator).len() >= 1,
        forall|i: int, j: int|
            0 <= i < pieces(text, separator).len() && 0 <= j < pieces(text, separator)[i].len()
                ==> #[trigger] pieces(text, separator)[i][j] != separator,
        joined(pieces(text, separator), separator) == text,
    decreases text.len(),
{
    if text.len() > 0 {
        let front = text.drop_last();
        let before = pieces(front, separator);
        lemma_pieces(front, separator);
        let c = text.last();
        let now = pieces(text, separator);
        if c == separator {
            assert(now.drop_last() =~= before);
            assert(joined(now, separator) =~= front.push(c));
            assert(front.push(c) =~= text);
        } else {
            if before.len() == 1 {
                assert(joined(now, separator) =~= front.push(c));
            } else {
                assert(now.drop_last() =~= before.drop_last());
                assert(joined(now, separator) =~= joined(before, separator).push(c));
            }
            assert(front.push(c) =~= text);
        }
    }
}

/// The texts of a vector of character vectors.
pub open spec fn texts(parts: Seq<Vec<char>>) -> Seq<Seq<char>> {
    Seq::new(parts.len(), |i: int| parts[i]@)
}

/// Cuts a text at each separator.
pub fn split(text: &Vec<char>, separator: char) -> (r: Vec<Vec<char>>)
    ensures
        texts(r@) == pieces(text@, separator),
{
    let mut done: Vec<Vec<char>> = Vec::new();
    let mut open: Vec<char> = Vec::new();
    let n: usize = text.len();
    let mut i: usize = 0;
    assert(text@.take(0) =~= Seq::<char>::empty());
    assert(texts(done@).push(open@) =~= pieces(text@.take(0), separator));
    while i < n
        invariant
            i <= n,
            n == text@.len(),
            texts(done@).push(open@) == pieces(text@.take(i as int), separator),
        decreases n - i,
    {
        let c: char = text[i];
        proof {
            assert(text@.take(i + 1).drop_last() =~= text@.take(i as int));
            assert(text@.take(i + 1).last() == c);
        }
        let ghost before = texts(done@).push(open@);
        if c == separator {
            done.push(open);
            open = Vec::new();
            assert(texts(done@).push(open@) =~= before.push(Seq::empty()));
        } else {
            open.push(c);
            assert(texts(done@).push(open@) =~= before.update(
                before.len() - 1,
                before.last().push(c),
            ));
        }
        i += 1;
    }
    assert(text@.take(n as int) =~= text@);
    let ghost before = texts(done@).push(open@);
    done.push(open);
    assert(texts(done@) =~= before);
    done
}

/// A line without the carriage return that ended it, if one did.
pub open spec fn without_return(line: Seq<char>) -> Seq<char> {
    if line.len() > 0 && line.last() == '\r' {
        line.drop_last()
    } else {
        line
    }
}

/// The lines of a text. A line ends at a line feed, and a carriage return
/// just before that line feed is not part of the line. What follows the last
/// line feed is a line only if it is not empty.
pub open spec fn lines_of(text: Seq<char>) -> Seq<Seq<char>> {
    let parts = pieces(text, '\n');
    let ended = parts.drop_last().map_values(|line: Seq<char>| without_return(line));
    if parts.last().len() > 0 {
        ended.push(parts.last())
    } else {
        ended
    }
}

/// Cuts a text into its lines.
pub fn split_lines(text: &Vec<char>) -> (r: Vec<Vec<char>>)
    ensures
        texts(r@) == lines_of(text@),
{
    proof {
        lemma_pieces(text@, '\n');
    }
    let parts: Vec<Vec<char>> = split(text, '\n');
    let ghost all = pieces(text@, '\n');
    let ghost ended = all.drop_last().map_values(|line: Seq<char>| without_return(line));
    let count: usize = parts.len();
    assert(count == all.len()) by {
        assert(texts(parts@).len() == parts@.len());
    }
    let mut r: Vec<Vec<char>> = Vec::new();
    let mut i: usize = 0;
    while i + 1 < count
        invariant
            1 <= count,
            count == parts@.len(),
            i + 1 <= count,
            texts(parts@) == all,
            ended == all.drop_last().map_values(|line: Seq<char>| without_return(line)),
            texts(r@) == ended.take(i as int),
        decreases count - i,
    {
        let part: &Vec<char> = &parts[i];
        assert(part@ == all[i as int]) by {
            assert(texts(parts@)[i as int] == parts@[i as int]@);
        }
        let mut keep: usize = part.len();
        if keep > 0 && part[keep - 1] == '\r' {
            keep = keep - 1;
        }
        let mut line: Vec<char> = Vec::new();
        let mut k: usize = 0;
        while k < keep
            invariant
                k <= keep,
                keep <= part@.len(),
                line@ == part@.take(k as int),
            decreases keep - k,
        {
            line.push(part[k]);
            assert(part@.take(k + 1) =~= part@.take(k as int).push(part@[k as int]));
            k += 1;
        }
        assert(line@ =~= without_return(part@)) by {
            assert(part@.take(part@.len() as int) =~= part@);
            assert(part@.take(part@.len() - 1) =~= part@.drop_last());
        }
        let ghost before = texts(r@);
        r.push(line);
        assert(texts(r@) =~= ended.take(i + 1)) by {
            assert(ended[i as int] == without_return(all.drop_last()[i as int]));
            assert(texts(r@) =~= before.push(without_return(part@)));
        }
        i += 1;
    }
    assert(ended.take(count - 1) =~= ended);
    let last: &Vec<char> = &parts[count - 1];
    assert(last@ == all.last()) by {
        assert(texts(parts@)[count - 1] == parts@[count - 1]@);
    }
    if last.len() > 0 {
        let mut line: Vec<char> = Vec::new();
        let mut k: usize = 0;
        while k < last.len()
            invariant
                k <= last@.len(),
                line@ == last@.take(k as int),
            decreases last@.len() - k,
        {
            line.push(last[k]);
            assert(last@.take(k + 1) =~= last@.take(k as int).push(last@[k as int]));
            k += 1;
        }
        assert(last@.take(last@.len() as int) =~= last@);
        let ghost before = texts(r@);
        r.push(line);
        assert(texts(r@) =~= before.push(last@));
    }
    r
}

/// The character of a decimal digit.
pub open spec fn digit_char(d: int) -> char {
    if d == 0 {
        '0'
    } else if d == 1 {
        '1'
    } else if d == 2 {
        '2'
    } else if d == 3 {
        '3'
    } else if d == 4 {
        '4'
    } else if d == 5 {
        '5'
    } else if d == 6 {
        '6'
    } else if d == 7 {
        '7'
    } else if d == 8 {
        '8'
    } else {
        '9'
    }
}

/// The decimal digits of a natural number, most significant first, without
/// leading zeros.
pub open spec fn digits(n: nat) -> Seq<char>
    decreases n,
{
    if n < 10 {
        seq![digit_char(n as int)]
    } else {
        digits(n / 10).push(digit_char((n % 10) as int))
    }
}

/// The decimal numeral of an integer: a minus sign for a negative number,
/// then the digits of its magnitude.
pub open spec fn decimal_text(n: int) -> Seq<char> {
    if n < 0 {
        seq!['-'] + digits((-n) as nat)
    } else {
        digits(n as nat)
    }
}

/// Ten to the power of `k`.
pub open spec fn power_of_ten(k: nat) -> nat
    decreases k,
{
    if k == 0 {
        1
    } else {
        10 * power_of_ten((k - 1) as nat)
    }
}

/// A number below ten to the power of `width` has at most `width` digits.
pub proof fn lemma_digits_len(n: nat, width: nat)
    requires
        width >= 1,
        n < power_of_ten(width),
    ensures
        1 <= digits(n).len() <= width,
    decreases width,
{
    if n >= 10 {
        if width == 1 {
            assert(power_of_ten(1) == 10) by {
                reveal_with_fuel(power_of_ten, 2);
            }
        } else {
            lemma_digits_len(n / 10, (width - 1) as nat);
        }
    }
}

/// The numeral of a 64-bit integer has at most twenty characters.
pub proof fn lemma_decimal_len(n: int)
    requires
        i64::MIN <= n <= i64::MAX,
    ensures
        1 <= decimal_text(n).len() <= 20,
{
    assert(power_of_ten(19) == 10_000_000_000_000_000_000) by {
        reveal_with_fuel(power_of_ten, 20);
    }
    if n < 0 {
        lemma_digits_len((-n) as nat, 19);
    } else {
        lemma_digits_len(n as nat, 19);
    }
}

fn digit(d: u64) -> (c: char)
    requires
        d < 10,
    ensures
        c == digit_char(d as int),
{
    if d == 0 {
        '0'
    } else if d == 1 {
        '1'
    } else if d == 2 {
        '2'
    } else if d == 3 {
        '3'
    } else if d == 4 {
        '4'
    } else if d == 5 {
        '5'
    } else if d == 6 {
        '6'
    } else if d == 7 {
        '7'
    } else if d == 8 {
        '8'
    } else {
        '9'
    }
}

/// The digits of `n`, least significant first.
fn digits_reversed(n: u64) -> (r: Vec<char>)
    ensures
        r@.len() == digits(n as nat).len(),
        forall|k: int|
            0 <= k < r@.len() ==> #[trigger] r@[k] == digits(n as nat)[r@.len() - 1 - k],
    decreases n,
{
    if n < 10 {
        let mut r: Vec<char> = Vec::new();
        r.push(digit(n));
        r
    } else {
        let rest: Vec<char> = digits_reversed(n / 10);
        let mut r: Vec<char> = Vec::new();
        r.push(digit(n % 10));
        let count: usize = rest.len();
        let mut k: usize = 0;
        while k < count
            invariant
                k <= count,
                count == rest@.len(),
                r@.len() == k + 1,
                r@[0] == digit_char((n % 10) as int),
                forall|q: int| 0 <= q < k ==> #[trigger] r@[q + 1] == rest@[q],
            decreases count - k,
        {
            r.push(rest[k]);
            k += 1;
        }
        assert forall|k: int| 0 <= k < r@.len() implies #[trigger] r@[k] == digits(n as nat)[r@.len()
            - 1 - k] by {
            if k > 0 {
                assert(r@[(k - 1) + 1] == rest@[k - 1]);
            }
        }
        r
    }
}

/// The decimal numeral of an integer.
pub fn decimal(n: i64) -> (r: Vec<char>)
    ensures
        r@ == decimal_text(n as int),
{
    let mut r: Vec<char> = Vec::new();
    let magnitude: u64 = if n < 0 {
        r.push('-');
        (-(n as i128)) as u64
    } else {
        n as u64
    };
    let ghost sign = r@;
    let reversed: Vec<char> = digits_reversed(magnitude);
    let mut k: usize = reversed.len();
    while k > 0
        invariant
            k <= reversed@.len(),
            reversed@.len() == digits(magnitude as nat).len(),
            forall|q: int|
                0 <= q < reversed@.len() ==> #[trigger] reversed@[q] == digits(
                    magnitude as nat,
                )[reversed@.len() - 1 - q],
            r@ == sign + digits(magnitude as nat).take(reversed@.len() - k),
        decreases k,
    {
        k -= 1;
        r.push(reversed[k]);
        assert(r@ =~= sign + digits(magnitude as nat).take(reversed@.len() - k));
    }
    assert(digits(magnitude as nat).take(reversed@.len() as int) =~= digits(magnitude as nat));
    assert(r@ =~= decimal_text(n as int));
    r
}

} // verus!
