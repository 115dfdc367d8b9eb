//! Characters and words: the small change of reading and writing text.

use vstd::prelude::*;

verus! {

/// `String::push`: the character goes to the end.
pub assume_specification[ String::push ](s: &mut String, c: char)
    ensures
        final(s)@ == old(s)@.push(c),
;

/// White space, as Unicode lists it.
pub open spec fn white(c: char) -> bool {
    let u = c as u32;
    (0x9 <= u <= 0xD) || u == 0x20 || u == 0x85 || u == 0xA0 || u == 0x1680 || (0x2000 <= u
        <= 0x200A) || u == 0x2028 || u == 0x2029 || u == 0x202F || u == 0x205F || u == 0x3000
}

/// Whether a character is white space.
pub fn is_white(c: char) -> (r: bool)
    ensures
        r == white(c),
{
    let u: u32 = c as u32;
    (0x9 <= u && u <= 0xD) || u == 0x20 || u == 0x85 || u == 0xA0 || u == 0x1680 || (0x2000 <= u
        && u <= 0x200A) || u == 0x2028 || u == 0x2029 || u == 0x202F || u == 0x205F || u == 0x3000
}

/// What stands between words: white space, and commas where they count.
pub open spec fn separates(c: char, commas: bool) -> bool {
    white(c) || (commas && c == ',')
}

fn is_separator(c: char, commas: bool) -> (r: bool)
    ensures
        r == separates(c, commas),
{
    is_white(c) || (commas && c == ',')
}

/// How many characters come before the first separator.
pub open spec fn word_len(s: Seq<char>, commas: bool) -> nat
    decreases s.len(),
{
    if s.len() == 0 || separates(s[0], commas) {
        0
    } else {
        1 + word_len(s.drop_first(), commas)
    }
}

/// The length of a word is at most that of the text.
pub proof fn lemma_word_len(s: Seq<char>, commas: bool)
    ensures
        word_len(s, commas) <= s.len(),
        s.len() > 0 && !separates(s[0], commas) ==> word_len(s, commas) > 0,
    decreases s.len(),
{
    if s.len() > 0 && !separates(s[0], commas) {
        lemma_word_len(s.drop_first(), commas);
    }
}

/// The words of a text.
pub open spec fn words(s: Seq<char>, commas: bool) -> Seq<Seq<char>>
    decreases s.len(),
{
    if s.len() == 0 {
        Seq::empty()
    } else if separates(s[0], commas) {
        words(s.drop_first(), commas)
    } else {
        let n = word_len(s, commas) as int;
        if 0 < n <= s.len() {
            seq![s.take(n)] + words(s.skip(n), commas)
        } else {
            Seq::empty()
        }
    }
}

/// What follows a separator does not lengthen the first word.
pub proof fn lemma_word_len_stays(s: Seq<char>, t: Seq<char>)
    requires
        t.len() == 0 || separates(t[0], true),
    ensures
        word_len(s + t, true) == word_len(s, true),
    decreases s.len(),
{
    if s.len() == 0 {
        assert(s + t =~= t);
    } else {
        assert((s + t)[0] == s[0]);
        if !separates(s[0], true) {
            assert((s + t).drop_first() =~= s.drop_first() + t);
            lemma_word_len_stays(s.drop_first(), t);
        }
    }
}

/// A text without separators is one word.
pub proof fn lemma_whole_word(w: Seq<char>)
    requires
        forall|i: int| 0 <= i < w.len() ==> !separates(#[trigger] w[i], true),
    ensures
        word_len(w, true) == w.len(),
        w.len() > 0 ==> words(w, true) == seq![w],
    decreases w.len(),
{
    if w.len() > 0 {
        let t = w.drop_first();
        assert forall|i: int| 0 <= i < t.len() implies !separates(#[trigger] t[i], true) by {
            assert(t[i] == w[i + 1]);
        }
        lemma_whole_word(t);
        assert(!separates(w[0], true));
        assert(w.take(w.len() as int) =~= w);
        assert(w.skip(w.len() as int) =~= Seq::empty());
        assert(words(Seq::<char>::empty(), true) =~= Seq::empty());
        assert(words(w, true) =~= seq![w]);
    }
}

/// Separators in front add no word.
pub proof fn lemma_lead(g: Seq<char>, t: Seq<char>)
    requires
        forall|i: int| 0 <= i < g.len() ==> separates(#[trigger] g[i], true),
    ensures
        words(g + t, true) == words(t, true),
    decreases g.len(),
{
    if g.len() == 0 {
        assert(g + t =~= t);
    } else {
        assert((g + t)[0] == g[0]);
        assert((g + t).drop_first() =~= g.drop_first() + t);
        assert forall|i: int| 0 <= i < g.drop_first().len() implies separates(
            #[trigger] g.drop_first()[i],
            true,
        ) by {
            assert(g.drop_first()[i] == g[i + 1]);
        }
        lemma_lead(g.drop_first(), t);
    }
}

/// The words of two texts with a gap between them.
pub proof fn lemma_join(s: Seq<char>, g: Seq<char>, t: Seq<char>)
    requires
        g.len() > 0,
        forall|i: int| 0 <= i < g.len() ==> separates(#[trigger] g[i], true),
    ensures
        words(s + g + t, true) == words(s, true) + words(t, true),
    decreases s.len(),
{
    let all = s + g + t;
    if s.len() == 0 {
        assert(all =~= g + t);
        lemma_lead(g, t);
        assert(words(s, true) + words(t, true) =~= words(t, true));
    } else if separates(s[0], true) {
        assert(all[0] == s[0]);
        assert(all.drop_first() =~= s.drop_first() + g + t);
        lemma_join(s.drop_first(), g, t);
    } else {
        let n = word_len(s, true) as int;
        lemma_word_len(s, true);
        assert(separates(g[0], true));
        assert((g + t)[0] == g[0]);
        assert(all =~= s + (g + t));
        lemma_word_len_stays(s, g + t);
        assert(all[0] == s[0]);
        assert(all.take(n) =~= s.take(n));
        assert(all.skip(n) =~= s.skip(n) + g + t);
        lemma_join(s.skip(n), g, t);
        assert(words(all, true) =~= words(s, true) + words(t, true));
    }
}

/// The characters of each word.
pub open spec fn texts(v: Seq<Vec<char>>) -> Seq<Seq<char>> {
    v.map_values(|w: Vec<char>| w@)
}

/// A part of a text.
pub fn part(s: &[char], from: usize, to: usize) -> (r: Vec<char>)
    requires
        from <= to <= s@.len(),
    ensures
        r@ == s@.subrange(from as int, to as int),
{
    let mut out: Vec<char> = Vec::new();
    let mut i: usize = from;
    while i < to
        invariant
            from <= i <= to <= s@.len(),
            out@ =~= s@.subrange(from as int, i as int),
        decreases to - i,
    {
        out.push(s[i]);
        i += 1;
    }
    out
}

/// The words of a text.
pub fn split_words(s: &[char], commas: bool) -> (r: Vec<Vec<char>>)
    ensures
        texts(r@) == words(s@, commas),
{
    let mut out: Vec<Vec<char>> = Vec::new();
    let n: usize = s.len();
    let mut i: usize = 0;
    assert(s@.skip(0) =~= s@);
    assert(texts(out@) + words(s@, commas) =~= words(s@, commas));
    while i < n
        invariant
            i <= n,
            n == s@.len(),
            words(s@, commas) == texts(out@) + words(s@.skip(i as int), commas),
        decreases n - i,
    {
        let ghost t = s@.skip(i as int);
        let ghost before = texts(out@);
        if is_separator(s[i], commas) {
            assert(t.drop_first() =~= s@.skip(i + 1));
            i += 1;
        } else {
            let mut k: usize = i;
            assert(s@.skip(k as int) =~= t);
            while k < n && !is_separator(s[k], commas)
                invariant
                    i <= k <= n,
                    n == s@.len(),
                    t == s@.skip(i as int),
                    word_len(t, commas) == (k - i) + word_len(s@.skip(k as int), commas),
                decreases n - k,
            {
                assert(s@.skip(k as int).drop_first() =~= s@.skip(k + 1));
                k += 1;
            }
            proof {
                lemma_word_len(t, commas);
            }
            let w = part(s, i, k);
            proof {
                assert(word_len(t, commas) == k - i);
                assert(w@ =~= t.take(k - i));
                assert(t.skip(k - i) =~= s@.skip(k as int));
            }
            out.push(w);
            proof {
                assert(texts(out@) =~= before.push(t.take(k - i)));
                assert(before + (seq![t.take(k - i)] + words(s@.skip(k as int), commas))
                    =~= texts(out@) + words(s@.skip(k as int), commas));
            }
            i = k;
        }
    }
    assert(s@.skip(i as int) =~= Seq::empty());
    assert(texts(out@) + Seq::empty() =~= texts(out@));
    out
}

/// The characters of a string.
pub fn chars_of(s: &str) -> (r: Vec<char>)
    ensures
        r@ == s@,
{
    let mut out: Vec<char> = Vec::new();
    for c in it: s.chars()
        invariant
            out@ =~= it.seq().take(it.index() as int),
            it.seq() == s@,
    {
        out.push(c);
    }
    assert(out@ =~= s@);
    out
}

/// Appends characters to a string.
pub fn push_chars(out: &mut String, s: &[char])
    ensures
        final(out)@ == old(out)@ + s@,
{
    let mut i: usize = 0;
    while i < s.len()
        invariant
            i <= s@.len(),
            out@ =~= old(out)@ + s@.take(i as int),
        decreases s@.len() - i,
    {
        out.push(s[i]);
        i += 1;
    }
    assert(s@.take(i as int) =~= s@);
}

/// Appends a text to a string.
pub fn push_text(out: &mut String, s: &str)
    ensures
        final(out)@ == old(out)@ + s@,
{
    let c = chars_of(s);
    push_chars(out, c.as_slice());
}

/// Whether characters spell a word.
pub fn spells(s: &[char], word: &str) -> (r: bool)
    ensures
        r == (s@ == word@),
{
    let w = chars_of(word);
    if w.len() != s.len() {
        return false;
    }
    let mut i: usize = 0;
    while i < s.len()
        invariant
            i <= s@.len(),
            w@ == word@,
            w@.len() == s@.len(),
            forall|j: int| 0 <= j < i ==> s@[j] == w@[j],
        decreases s@.len() - i,
    {
        if s[i] != w[i] {
            return false;
        }
        i += 1;
    }
    assert(s@ =~= word@);
    true
}

/// Whether two texts are the same.
pub fn same_text(a: &str, b: &str) -> (r: bool)
    ensures
        r == (a@ == b@),
{
    let c = chars_of(a);
    spells(c.as_slice(), b)
}

/// Appends a text and ends the line.
pub fn push_line(out: &mut String, s: &str)
    ensures
        final(out)@ == old(out)@ + s@ + seq!['\n'],
{
    push_text(out, s);
    out.push('\n');
    assert(out@ =~= old(out)@ + s@ + seq!['\n']);
}

/// Whether a text starts with another.
pub open spec fn begins(s: Seq<char>, prefix: Seq<char>) -> bool {
    prefix.len() <= s.len() && s.take(prefix.len() as int) == prefix
}

/// Whether characters start with a text.
pub fn begins_with(s: &[char], prefix: &str) -> (r: bool)
    ensures
        r == begins(s@, prefix@),
{
    let w = chars_of(prefix);
    if w.len() > s.len() {
        return false;
    }
    let mut i: usize = 0;
    while i < w.len()
        invariant
            i <= w@.len() <= s@.len(),
            w@ == prefix@,
            forall|j: int| 0 <= j < i ==> s@[j] == w@[j],
        decreases w@.len() - i,
    {
        if s[i] != w[i] {
            assert(s@.take(w@.len() as int)[i as int] == s@[i as int]);
            return false;
        }
        i += 1;
    }
    assert(s@.take(w@.len() as int) =~= prefix@);
    true
}

/// The first place of a character, from `i` on; the end if it is not there.
pub open spec fn place_of(s: Seq<char>, c: char, i: int) -> int
    decreases s.len() - i,
{
    if i >= s.len() {
        s.len() as int
    } else if s[i] == c {
        i
    } else {
        place_of(s, c, i + 1)
    }
}

/// The first place of a character.
pub fn find_char(s: &[char], c: char) -> (r: usize)
    ensures
        r == place_of(s@, c, 0),
        r <= s@.len(),
{
    let mut i: usize = 0;
    while i < s.len()
        invariant
            i <= s@.len(),
            place_of(s@, c, 0) == place_of(s@, c, i as int),
        decreases s@.len() - i,
    {
        if s[i] == c {
            return i;
        }
        i += 1;
    }
    i
}

/// A place lies within the text, and what it skips over is something else.
pub proof fn lemma_place_of(s: Seq<char>, c: char, i: int)
    requires
        0 <= i <= s.len(),
    ensures
        i <= place_of(s, c, i) <= s.len(),
        place_of(s, c, i) < s.len() ==> s[place_of(s, c, i)] == c,
        forall|j: int| i <= j < place_of(s, c, i) ==> #[trigger] s[j] != c,
    decreases s.len() - i,
{
    if i < s.len() && s[i] != c {
        lemma_place_of(s, c, i + 1);
    }
}

/// The pieces of a text between the places where a character stands.
pub open spec fn pieces(s: Seq<char>, c: char) -> Seq<Seq<char>>
    decreases s.len(),
{
    let k = place_of(s, c, 0);
    if 0 <= k < s.len() {
        seq![s.take(k)] + pieces(s.skip(k + 1), c)
    } else {
        seq![s]
    }
}

/// Splits a text at a character.
pub fn split_on(s: &[char], c: char) -> (r: Vec<Vec<char>>)
    ensures
        texts(r@) == pieces(s@, c),
    decreases s@.len(),
{
    let k: usize = find_char(s, c);
    if k < s.len() {
        let tail = vstd::slice::slice_subrange(s, k + 1, s.len());
        assert(tail@ =~= s@.skip(k + 1));
        let mut rest = split_on(tail, c);
        let ghost before = rest@;
        let head = part(s, 0, k);
        rest.insert(0, head);
        assert(s@.subrange(0, k as int) =~= s@.take(k as int));
        assert(texts(rest@) =~= seq![s@.take(k as int)] + texts(before));
        rest
    } else {
        let mut out: Vec<Vec<char>> = Vec::new();
        out.push(part(s, 0, s.len()));
        assert(s@.subrange(0, s@.len() as int) =~= s@);
        assert(texts(out@) =~= seq![s@]);
        out
    }
}

/// A run of one character.
pub open spec fn run_of(c: char, n: int) -> Seq<char> {
    Seq::new(if n > 0 { n as nat } else { 0 }, |i: int| c)
}

/// A text filled up with blanks on the right.
pub open spec fn left_aligned(s: Seq<char>, width: nat) -> Seq<char> {
    s + run_of(' ', width - s.len())
}

/// A text filled up with blanks on the left.
pub open spec fn right_aligned(s: Seq<char>, width: nat) -> Seq<char> {
    run_of(' ', width - s.len()) + s
}

fn push_blanks(out: &mut String, len: usize, width: usize)
    ensures
        final(out)@ == old(out)@ + run_of(' ', width - len),
{
    let mut i: usize = len;
    while i < width
        invariant
            len <= i <= width || (len >= width && i == len),
            out@ =~= old(out)@ + run_of(' ', i - len),
        decreases width - i,
    {
        out.push(' ');
        i += 1;
    }
    assert(run_of(' ', i - len) =~= run_of(' ', width - len));
}

/// Appends a text, filled up on the right.
pub fn push_left(out: &mut String, s: &str, width: usize)
    ensures
        final(out)@ == old(out)@ + left_aligned(s@, width as nat),
{
    let c = chars_of(s);
    push_chars(out, c.as_slice());
    push_blanks(out, c.len(), width);
    assert(out@ =~= old(out)@ + left_aligned(s@, width as nat));
}

/// Appends a text, filled up on the left.
pub fn push_right(out: &mut String, s: &str, width: usize)
    ensures
        final(out)@ == old(out)@ + right_aligned(s@, width as nat),
{
    let c = chars_of(s);
    push_blanks(out, c.len(), width);
    push_chars(out, c.as_slice());
    assert(out@ =~= old(out)@ + right_aligned(s@, width as nat));
}

/// The digit character of a number below ten.
pub open spec fn digit(d: nat) -> char {
    (('0' as u32) + d) as char
}

/// A number in decimal.
pub open spec fn decimal(n: nat) -> Seq<char>
    decreases n,
{
    if n < 10 {
        seq![digit(n)]
    } else {
        decimal(n / 10).push(digit(n % 10))
    }
}

fn digit_char(d: u64) -> (r: char)
    requires
        d < 10,
    ensures
        r == digit(d as nat),
{
    if d == 0 {
        '0'
    } else if d == 1 {
        '1'
    } else if d == 2 {
        '2'
    } else if d == 3 {
        '3'
    } else if d == 4 {
        '4'
    } else if d == 5 {
        '5'
    } else if d == 6 {
        '6'
    } else if d == 7 {
        '7'
    } else if d == 8 {
        '8'
    } else {
        '9'
    }
}

/// A number in decimal.
pub fn decimal_chars(n: u64) -> (r: Vec<char>)
    ensures
        r@ == decimal(n as nat),
    decreases n,
{
    if n < 10 {
        let mut out: Vec<char> = Vec::new();
        out.push(digit_char(n));
        assert(out@ =~= seq![digit(n as nat)]);
        out
    } else {
        let mut out = decimal_chars(n / 10);
        out.push(digit_char(n % 10));
        out
    }
}

/// Appends a number in decimal.
pub fn push_decimal(out: &mut String, n: u64)
    ensures
        final(out)@ == old(out)@ + decimal(n as nat),
{
    let d = decimal_chars(n);
    push_chars(out, d.as_slice());
}

/// The value of a digit in a radix of at most sixteen.
pub open spec fn digit_value(c: char, radix: nat) -> Option<nat> {
    let u = c as u32;
    let v = if '0' as u32 <= u <= '9' as u32 {
        (u - '0' as u32) as nat
    } else if 'a' as u32 <= u <= 'f' as u32 {
        (u - 'a' as u32 + 10) as nat
    } else if 'A' as u32 <= u <= 'F' as u32 {
        (u - 'A' as u32 + 10) as nat
    } else {
        99
    };
    if v < radix {
        Some(v)
    } else {
        None
    }
}

fn value_of_digit(c: char, radix: u64) -> (r: Option<u64>)
    requires
        radix <= 16,
    ensures
        match r {
            Some(v) => digit_value(c, radix as nat) == Some(v as nat) && v < radix,
            None => digit_value(c, radix as nat) is None,
        },
{
    let u: u32 = c as u32;
    let v: u64 = if 48 <= u && u <= 57 {
        (u - 48) as u64
    } else if 97 <= u && u <= 102 {
        (u - 87) as u64
    } else if 65 <= u && u <= 70 {
        (u - 55) as u64
    } else {
        99
    };
    if v < radix {
        Some(v)
    } else {
        None
    }
}

/// The value of digits; nothing where one is no digit.
pub open spec fn digits_value(s: Seq<char>, radix: nat) -> Option<nat>
    decreases s.len(),
{
    if s.len() == 0 {
        Some(0)
    } else {
        match (digits_value(s.drop_last(), radix), digit_value(s.last(), radix)) {
            (Some(v), Some(d)) => Some(v * radix + d),
            _ => None,
        }
    }
}

/// The number that a text spells, if it spells one of at most `max`: one or more
/// digits, with a plus sign before them or without.
pub open spec fn number(s: Seq<char>, radix: nat, max: nat) -> Option<nat> {
    let d = if s.len() > 1 && s[0] == '+' { s.drop_first() } else { s };
    if d.len() == 0 {
        None
    } else {
        match digits_value(d, radix) {
            Some(v) => if v <= max {
                Some(v)
            } else {
                None
            },
            None => None,
        }
    }
}

/// The digits of a number in decimal read back as that number.
pub proof fn lemma_decimal(n: nat)
    ensures
        decimal(n).len() > 0,
        digits_value(decimal(n), 10) == Some(n),
        forall|i: int|
            0 <= i < decimal(n).len() ==> digit_value(#[trigger] decimal(n)[i], 10) is Some,
    decreases n,
{
    if n < 10 {
        assert(seq![digit(n)].drop_last() =~= Seq::empty());
        assert(digits_value(Seq::<char>::empty(), 10) == Some(0nat));
        assert(digit_value(digit(n), 10) == Some(n));
        assert(decimal(n).last() == digit(n));
    } else {
        lemma_decimal(n / 10);
        let d = decimal(n / 10);
        assert(decimal(n).drop_last() =~= d);
        assert(decimal(n).last() == digit(n % 10));
        assert(digit_value(digit(n % 10), 10) == Some(n % 10));
        assert forall|i: int| 0 <= i < decimal(n).len() implies digit_value(
            #[trigger] decimal(n)[i],
            10,
        ) is Some by {
            if i < d.len() {
                assert(decimal(n)[i] == d[i]);
            }
        }
    }
}

proof fn lemma_digits_grow(s: Seq<char>, k: int, radix: nat)
    requires
        0 <= k <= s.len(),
        radix >= 1,
    ensures
        match (digits_value(s.take(k), radix), digits_value(s, radix)) {
            (Some(a), Some(b)) => a <= b,
            (None, Some(b)) => false,
            _ => true,
        },
    decreases s.len() - k,
{
    if k < s.len() {
        lemma_digits_grow(s, k + 1, radix);
        let t = s.take(k + 1);
        assert(t.drop_last() =~= s.take(k));
        match (digits_value(s.take(k), radix), digit_value(t.last(), radix)) {
            (Some(v), Some(d)) => {
                assert(v * radix + d >= v) by (nonlinear_arith)
                    requires
                        radix >= 1,
                        v >= 0,
                        d >= 0,
                ;
            },
            _ => {},
        }
    } else {
        assert(s.take(k) =~= s);
    }
}

/// The value of digits, where it fits.
fn digits_total(d: &[char], radix: u64) -> (r: Option<u64>)
    requires
        2 <= radix <= 16,
    ensures
        match r {
            Some(v) => digits_value(d@, radix as nat) == Some(v as nat),
            None => match digits_value(d@, radix as nat) {
                Some(w) => w > u64::MAX,
                None => true,
            },
        },
{
    let n: usize = d.len();
    let mut v: u64 = 0;
    let mut i: usize = 0;
    assert(d@.take(0) =~= Seq::empty());
    while i < n
        invariant
            i <= n,
            n == d@.len(),
            2 <= radix <= 16,
            digits_value(d@.take(i as int), radix as nat) == Some(v as nat),
        decreases n - i,
    {
        let ghost t = d@.take(i + 1);
        proof {
            assert(t.drop_last() =~= d@.take(i as int));
            assert(t.last() == d@[i as int]);
            lemma_digits_grow(d@, i + 1, radix as nat);
        }
        let x: u64 = match value_of_digit(d[i], radix) {
            Some(x) => x,
            None => return None,
        };
        assert(digits_value(t, radix as nat) == Some((v * radix + x) as nat));
        let wide: u128 = widen(v, radix, x);
        if wide > u64::MAX as u128 {
            return None;
        }
        v = wide as u64;
        i += 1;
    }
    assert(d@.take(i as int) =~= d@);
    Some(v)
}

fn widen(v: u64, radix: u64, x: u64) -> (r: u128)
    requires
        radix <= 16,
        x < 16,
    ensures
        r == v * radix + x,
{
    assert(v * radix <= v * 16) by (nonlinear_arith)
        requires
            radix <= 16,
    ;
    (v as u128) * (radix as u128) + (x as u128)
}

/// Reads a number.
pub fn parse_number(s: &[char], radix: u64, max: u64) -> (r: Option<u64>)
    requires
        2 <= radix <= 16,
    ensures
        match r {
            Some(v) => number(s@, radix as nat, max as nat) == Some(v as nat) && v <= max,
            None => number(s@, radix as nat, max as nat) is None,
        },
{
    let n: usize = s.len();
    if n == 0 {
        return None;
    }
    let total = if n > 1 && s[0] == '+' {
        let d = vstd::slice::slice_subrange(s, 1, n);
        assert(d@ =~= s@.drop_first());
        digits_total(d, radix)
    } else {
        digits_total(s, radix)
    };
    match total {
        Some(v) => if v <= max {
            Some(v)
        } else {
            None
        },
        None => None,
    }
}

} // verus!
