//! Text helpers: comparing, splitting, trimming and rendering strings, with
//! contracts over their characters.
use vstd::prelude::*;
use vstd::utf8::*;

verus! {

/// Whether a character has the Unicode `White_Space` property.
pub open spec fn white_space(c: char) -> bool {
    ||| '\u{9}' <= c <= '\u{d}'
    ||| c == '\u{20}'
    ||| c == '\u{85}'
    ||| c == '\u{a0}'
    ||| c == '\u{1680}'
    ||| '\u{2000}' <= c <= '\u{200a}'
    ||| c == '\u{2028}'
    ||| c == '\u{2029}'
    ||| c == '\u{202f}'
    ||| c == '\u{205f}'
    ||| c == '\u{3000}'
}

/// `char::is_whitespace`: whether the character is one of the twenty-five with
/// the `White_Space` property.
pub assume_specification[ char::is_whitespace ](c: char) -> (r: bool)
    ensures
        r == white_space(c),
;

/// Whether a character is alphabetic or numeric in Unicode's sense.
pub uninterp spec fn alphanumeric(c: char) -> bool;

/// Whether a character is an ASCII letter or digit.
pub open spec fn plain_alphanumeric(c: char) -> bool {
    'a' <= c <= 'z' || 'A' <= c <= 'Z' || '0' <= c <= '9'
}

/// Whether a character is a letter or a number: in ASCII one of the letters and
/// digits, elsewhere as Unicode has it.
pub open spec fn letter_or_number(c: char) -> bool {
    if c <= '\u{7f}' {
        plain_alphanumeric(c)
    } else {
        alphanumeric(c)
    }
}

/// `char::is_alphanumeric`: in ASCII true of the letters and digits alone; on any
/// other character a function of the character, named [`alphanumeric`].
pub assume_specification[ char::is_alphanumeric ](c: char) -> (r: bool)
    ensures
        r == if c <= '\u{7f}' {
            plain_alphanumeric(c)
        } else {
            alphanumeric(c)
        },
;

/// Whether a text holds ASCII characters only.
pub open spec fn is_plain(s: Seq<char>) -> bool {
    forall|i: int| 0 <= i < s.len() ==> #[trigger] s[i] <= '\u{7f}'
}

/// An ASCII letter in lowercase; any other character as it is.
pub open spec fn small(c: char) -> char {
    if 'A' <= c <= 'Z' {
        ((c as u8 + 32) as u8) as char
    } else {
        c
    }
}

/// An ASCII letter in uppercase; any other character as it is.
pub open spec fn capital(c: char) -> char {
    if 'a' <= c <= 'z' {
        ((c as u8 - 32) as u8) as char
    } else {
        c
    }
}

/// A text with its ASCII letters in lowercase.
pub open spec fn smalls(s: Seq<char>) -> Seq<char> {
    Seq::new(s.len(), |i: int| small(s[i]))
}

/// A text with its ASCII letters in uppercase.
pub open spec fn capitals(s: Seq<char>) -> Seq<char> {
    Seq::new(s.len(), |i: int| capital(s[i]))
}

/// The lowercase form of a text under Unicode's case mapping.
pub uninterp spec fn lowercase(s: Seq<char>) -> Seq<char>;

/// The lowercase form of a text: letter by letter where it is ASCII.
pub open spec fn lowered(s: Seq<char>) -> Seq<char> {
    if is_plain(s) {
        smalls(s)
    } else {
        lowercase(s)
    }
}

/// `str::to_lowercase`: on ASCII text every letter has its lowercase form; on
/// any other text the result is a function of the characters, named
/// [`lowercase`]. Each character gives one or more.
pub assume_specification[ str::to_lowercase ](s: &str) -> (r: String)
    ensures
        r@ == if is_plain(s@) {
            smalls(s@)
        } else {
            lowercase(s@)
        },
        s@.len() > 0 ==> r@.len() > 0,
;

/// The uppercase form of a text under Unicode's case mapping.
pub uninterp spec fn uppercase(s: Seq<char>) -> Seq<char>;

/// The uppercase form of a text: letter by letter where it is ASCII.
pub open spec fn uppered(s: Seq<char>) -> Seq<char> {
    if is_plain(s) {
        capitals(s)
    } else {
        uppercase(s)
    }
}

/// `str::to_uppercase`: on ASCII text every letter has its uppercase form; on
/// any other text the result is a function of the characters, named
/// [`uppercase`]. Each character gives one or more.
pub assume_specification[ str::to_uppercase ](s: &str) -> (r: String)
    ensures
        r@ == if is_plain(s@) {
            capitals(s@)
        } else {
            uppercase(s@)
        },
        s@.len() > 0 ==> r@.len() > 0,
;

/// `String::push` appends one character.
pub assume_specification[ String::push ](s: &mut String, c: char)
    ensures
        final(s)@ == old(s)@.push(c),
;

/// Compares two strings character for character.
pub fn str_eq(a: &str, b: &str) -> (r: bool)
    ensures
        r == (a@ == b@),
{
    let x: &[u8] = a.as_bytes();
    let y: &[u8] = b.as_bytes();
    proof {
        encode_utf8_decode_utf8(a@);
        encode_utf8_decode_utf8(b@);
    }
    if x.len() != y.len() {
        return false;
    }
    let n: usize = x.len();
    let mut i: usize = 0;
    while i < n
        invariant
            i <= n,
            n == x@.len(),
            n == y@.len(),
            x@ == encode_utf8(a@),
            y@ == encode_utf8(b@),
            forall|k: int| 0 <= k < i ==> x@[k] == y@[k],
        decreases n - i,
    {
        if x[i] != y[i] {
            return false;
        }
        i = i + 1;
    }
    assert(x@ =~= y@);
    true
}

/// The characters of a string, in order.
pub fn chars_of(s: &str) -> (r: Vec<char>)
    ensures
        r@ == s@,
{
    let mut out: Vec<char> = Vec::new();
    for c in it: s.chars()
        invariant
            out@ =~= it.seq().take(it.index() as int),
            it.seq() == s@,
    {
        out.push(c);
    }
    out
}

/// The string made of the given characters.
pub fn string_of(v: &Vec<char>) -> (r: String)
    ensures
        r@ == v@,
{
    let mut out: String = String::new();
    let mut i: usize = 0;
    while i < v.len()
        invariant
            i <= v.len(),
            out@ =~= v@.take(i as int),
        decreases v.len() - i,
    {
        out.push(v[i]);
        i = i + 1;
    }
    assert(v@.take(v@.len() as int) =~= v@);
    out
}

/// Whether a text holds a given character.
pub fn holds(s: &Vec<char>, c: char) -> (r: bool)
    ensures
        r == s@.contains(c),
{
    let mut i: usize = 0;
    while i < s.len()
        invariant
            i <= s.len(),
            forall|k: int| 0 <= k < i ==> s@[k] != c,
        decreases s.len() - i,
    {
        if s[i] == c {
            assert(s@[i as int] == c);
            return true;
        }
        i = i + 1;
    }
    false
}

/// The views of a list of strings.
pub open spec fn texts(v: Seq<String>) -> Seq<Seq<char>> {
    Seq::new(v.len(), |i: int| v[i]@)
}

/// Whether a list of strings holds one equal to the given text.
pub fn any_text(v: &Vec<String>, s: &str) -> (r: bool)
    ensures
        r == texts(v@).contains(s@),
{
    let mut i: usize = 0;
    while i < v.len()
        invariant
            i <= v.len(),
            forall|k: int| 0 <= k < i ==> texts(v@)[k] != s@,
        decreases v.len() - i,
    {
        if str_eq(v[i].as_str(), s) {
            assert(texts(v@)[i as int] == s@);
            return true;
        }
        i = i + 1;
    }
    false
}

/// What cuts a text into pieces.
#[derive(Clone, Copy, PartialEq, Eq, Debug, Structural)]
pub enum Cut {
    /// White space.
    Blank,
    /// White space, a comma or a semicolon.
    Entry,
    /// An at sign.
    At,
}

/// Whether a character is a separator for this kind of cut.
pub open spec fn cuts(kind: Cut, c: char) -> bool {
    match kind {
        Cut::Blank => white_space(c),
        Cut::Entry => c == ',' || c == ';' || white_space(c),
        Cut::At => c == '@',
    }
}

fn is_cut(kind: Cut, c: char) -> (r: bool)
    ensures
        r == cuts(kind, c),
{
    match kind {
        Cut::Blank => c.is_whitespace(),
        Cut::Entry => c == ',' || c == ';' || c.is_whitespace(),
        Cut::At => c == '@',
    }
}

/// The pieces between the separators of a text, empty ones included: always one
/// more than there are separators.
pub open spec fn pieces(s: Seq<char>, kind: Cut) -> Seq<Seq<char>>
    decreases s.len(),
{
    if s.len() == 0 {
        seq![Seq::<char>::empty()]
    } else {
        let before = pieces(s.drop_last(), kind);
        if cuts(kind, s.last()) {
            before.push(Seq::<char>::empty())
        } else {
            before.drop_last().push(before.last().push(s.last()))
        }
    }
}

/// The views of a list of character vectors.
pub open spec fn char_rows(v: Seq<Vec<char>>) -> Seq<Seq<char>> {
    Seq::new(v.len(), |i: int| v[i]@)
}

/// Splits a text at its separators.
pub fn split(s: &str, kind: Cut) -> (r: Vec<Vec<char>>)
    ensures
        char_rows(r@) == pieces(s@, kind),
        r@.len() >= 1,
{
    let chars: Vec<char> = chars_of(s);
    let mut done: Vec<Vec<char>> = Vec::new();
    let mut open: Vec<char> = Vec::new();
    let mut i: usize = 0;
    while i < chars.len()
        invariant
            i <= chars.len(),
            chars@ == s@,
            char_rows(done@).push(open@) =~= pieces(s@.take(i as int), kind),
        decreases chars.len() - i,
    {
        let c: char = chars[i];
        assert(s@.take(i + 1).drop_last() =~= s@.take(i as int));
        if is_cut(kind, c) {
            let ghost before = done@;
            let ghost row = open@;
            done.push(open);
            open = Vec::new();
            assert(char_rows(done@) =~= char_rows(before).push(row));
        } else {
            let ghost row = open@;
            open.push(c);
            assert(char_rows(done@).push(row).drop_last() =~= char_rows(done@));
        }
        i = i + 1;
    }
    assert(s@.take(s@.len() as int) =~= s@);
    let ghost before = done@;
    let ghost row = open@;
    done.push(open);
    assert(char_rows(done@) =~= char_rows(before).push(row));
    done
}

/// A text without the white space it starts with.
pub open spec fn trimmed_start(s: Seq<char>) -> Seq<char>
    decreases s.len(),
{
    if s.len() > 0 && white_space(s[0]) {
        trimmed_start(s.drop_first())
    } else {
        s
    }
}

/// A text without the white space it ends with.
pub open spec fn trimmed_end(s: Seq<char>) -> Seq<char>
    decreases s.len(),
{
    if s.len() > 0 && white_space(s.last()) {
        trimmed_end(s.drop_last())
    } else {
        s
    }
}

/// A text without the white space around it.
pub open spec fn trimmed(s: Seq<char>) -> Seq<char> {
    trimmed_end(trimmed_start(s))
}

/// Removes the white space around a text.
pub fn trim(s: &str) -> (r: String)
    ensures
        r@ == trimmed(s@),
{
    let chars: Vec<char> = chars_of(s);
    let n: usize = chars.len();
    let mut from: usize = 0;
    assert(s@.skip(0) =~= s@);
    while from < n && chars[from].is_whitespace()
        invariant
            from <= n,
            n == chars@.len(),
            chars@ == s@,
            trimmed_start(s@) == trimmed_start(s@.skip(from as int)),
        decreases n - from,
    {
        assert(s@.skip(from as int).drop_first() =~= s@.skip(from + 1));
        from = from + 1;
    }
    let ghost body = s@.skip(from as int);
    assert(trimmed_start(s@) == body);
    let mut to: usize = n;
    assert(body.take(n - from) =~= body);
    while to > from && chars[to - 1].is_whitespace()
        invariant
            from <= to <= n,
            n == chars@.len(),
            chars@ == s@,
            body == s@.skip(from as int),
            trimmed_end(body) == trimmed_end(body.take(to - from)),
        decreases to,
    {
        assert(body.take(to - from).drop_last() =~= body.take(to - from - 1));
        assert(body.take(to - from).last() == chars@[to - 1]);
        to = to - 1;
    }
    let mut out: String = String::new();
    let mut i: usize = from;
    while i < to
        invariant
            from <= i <= to <= n,
            n == chars@.len(),
            out@ =~= chars@.subrange(from as int, i as int),
        decreases to - i,
    {
        out.push(chars[i]);
        i = i + 1;
    }
    assert(body.take(to - from) =~= chars@.subrange(from as int, to as int));
    out
}

/// The decimal digit of a number below ten.
pub open spec fn digit(d: nat) -> char {
    ((48 + d) as u8) as char
}

/// A natural number in decimal, without leading zeros.
pub open spec fn decimal_nat(n: nat) -> Seq<char>
    decreases n,
{
    if n < 10 {
        seq![digit(n)]
    } else {
        decimal_nat(n / 10).push(digit(n % 10))
    }
}

/// An integer in decimal, with a minus sign when negative.
pub open spec fn decimal(n: int) -> Seq<char> {
    if n < 0 {
        seq!['-'] + decimal_nat((-n) as nat)
    } else {
        decimal_nat(n as nat)
    }
}

fn push_decimal(out: &mut String, n: u64)
    ensures
        final(out)@ == old(out)@ + decimal_nat(n as nat),
    decreases n,
{
    if n >= 10 {
        push_decimal(out, n / 10);
    }
    let d: u8 = (n % 10) as u8;
    out.push((48 + d) as char);
    assert(out@ =~= old(out)@ + decimal_nat(n as nat));
}

/// Renders an integer in decimal.
pub fn to_decimal(n: i64) -> (r: String)
    ensures
        r@ == decimal(n as int),
{
    let mut out: String = String::new();
    if n < 0 {
        out.push('-');
        let m: u64 = (-(n as i128)) as u64;
        push_decimal(&mut out, m);
        assert(seq!['-'] =~= Seq::<char>::empty().push('-'));
    } else {
        push_decimal(&mut out, n as u64);
    }
    assert(out@ =~= decimal(n as int));
    out
}

/// A text with every occurrence of one character replaced by a text.
pub open spec fn replaced(s: Seq<char>, c: char, by: Seq<char>) -> Seq<char>
    decreases s.len(),
{
    if s.len() == 0 {
        Seq::empty()
    } else {
        replaced(s.drop_last(), c, by) + if s.last() == c {
            by
        } else {
            seq![s.last()]
        }
    }
}

/// Replaces every occurrence of a character.
pub fn replace(s: &str, c: char, by: &str) -> (r: String)
    ensures
        r@ == replaced(s@, c, by@),
{
    let mut out: String = String::new();
    for d in it: s.chars()
        invariant
            it.seq() == s@,
            out@ =~= replaced(s@.take(it.index() as int), c, by@),
    {
        assert(s@.take(it.index() + 1).drop_last() =~= s@.take(it.index() as int));
        if d == c {
            out.append(by);
        } else {
            out.push(d);
        }
    }
    assert(s@.take(s@.len() as int) =~= s@);
    out
}

/// The first occurrence of each item of a sequence, in order.
pub open spec fn distinct<T>(s: Seq<T>) -> Seq<T>
    decreases s.len(),
{
    if s.len() == 0 {
        s
    } else {
        let before = distinct(s.drop_last());
        if before.contains(s.last()) {
            before
        } else {
            before.push(s.last())
        }
    }
}

/// [`distinct`] keeps every item, once, and adds none.
pub proof fn distinct_keeps_each_once<T>(s: Seq<T>)
    ensures
        distinct(s).no_duplicates(),
        distinct(s).len() <= s.len(),
        forall|x: T| distinct(s).contains(x) <==> #[trigger] s.contains(x),
    decreases s.len(),
{
    if s.len() > 0 {
        let before = s.drop_last();
        distinct_keeps_each_once(before);
        assert forall|x: T| distinct(s).contains(x) <==> #[trigger] s.contains(x) by {
            if s.contains(x) {
                let i = choose|i: int| 0 <= i < s.len() && s[i] == x;
                if i < before.len() {
                    assert(before[i] == x);
                    assert(before.contains(x));
                    let j = choose|j: int| 0 <= j < distinct(before).len() && distinct(before)[j] == x;
                    assert(distinct(s)[j] == x);
                } else if !distinct(before).contains(x) {
                    assert(distinct(s).last() == x);
                }
            }
            if distinct(s).contains(x) {
                let j = choose|j: int| 0 <= j < distinct(s).len() && distinct(s)[j] == x;
                if j < distinct(before).len() {
                    assert(distinct(before)[j] == x);
                    assert(before.contains(x));
                    let i = choose|i: int| 0 <= i < before.len() && before[i] == x;
                    assert(s[i] == x);
                } else {
                    assert(s.last() == x);
                }
            }
        }
    } else {
        assert(distinct(s) =~= s);
    }
}

/// A text has at least one piece.
pub proof fn pieces_are_some(s: Seq<char>, kind: Cut)
    ensures
        pieces(s, kind).len() >= 1,
    decreases s.len(),
{
    if s.len() > 0 {
        pieces_are_some(s.drop_last(), kind);
    }
}

/// A separator parts the pieces before it from those after it.
pub proof fn pieces_part_at_a_separator(a: Seq<char>, c: char, b: Seq<char>, kind: Cut)
    requires
        cuts(kind, c),
    ensures
        pieces(a + seq![c] + b, kind) == pieces(a, kind) + pieces(b, kind),
    decreases b.len(),
{
    let all = a + seq![c] + b;
    if b.len() == 0 {
        assert(all.drop_last() =~= a);
        assert(pieces(all, kind) =~= pieces(a, kind) + pieces(b, kind));
    } else {
        let front = b.drop_last();
        pieces_part_at_a_separator(a, c, front, kind);
        pieces_are_some(front, kind);
        assert(all.drop_last() =~= a + seq![c] + front);
        assert(all.last() == b.last());
        assert(pieces(all, kind) =~= pieces(a, kind) + pieces(b, kind));
    }
}

/// No piece holds a separator.
pub proof fn pieces_hold_no_separator(s: Seq<char>, kind: Cut)
    ensures
        forall|i: int, k: int|
            0 <= i < pieces(s, kind).len() && 0 <= k < pieces(s, kind)[i].len() ==> !cuts(
                kind,
                #[trigger] pieces(s, kind)[i][k],
            ),
    decreases s.len(),
{
    if s.len() > 0 {
        let front = s.drop_last();
        pieces_are_some(front, kind);
        pieces_hold_no_separator(front, kind);
        let before = pieces(front, kind);
        let all = pieces(s, kind);
        assert forall|i: int, k: int| 0 <= i < all.len() && 0 <= k < all[i].len() implies !cuts(
            kind,
            #[trigger] all[i][k],
        ) by {
            if i < before.len() && k < before[i].len() {
                assert(all[i][k] == before[i][k]);
            }
        }
    }
}

/// A text without a separator is its only piece.
pub proof fn one_piece(s: Seq<char>, kind: Cut)
    requires
        forall|k: int| 0 <= k < s.len() ==> !cuts(kind, #[trigger] s[k]),
    ensures
        pieces(s, kind) == seq![s],
    decreases s.len(),
{
    if s.len() > 0 {
        let front = s.drop_last();
        assert forall|k: int| 0 <= k < front.len() implies !cuts(kind, #[trigger] front[k]) by {
            assert(front[k] == s[k]);
        }
        one_piece(front, kind);
        assert(!cuts(kind, s[s.len() - 1]));
        assert(front.push(s.last()) =~= s);
        assert(pieces(s, kind) =~= seq![s]);
    } else {
        assert(s =~= Seq::<char>::empty());
    }
}

/// A text that neither starts nor ends with white space is left as it is.
pub proof fn nothing_to_trim(s: Seq<char>)
    requires
        forall|k: int| 0 <= k < s.len() ==> !white_space(#[trigger] s[k]),
    ensures
        trimmed(s) == s,
{
    if s.len() > 0 {
        assert(!white_space(s[0]));
        assert(!white_space(s[s.len() - 1]));
    }
}

/// Items that a sequence holds already add nothing to its first occurrences.
pub proof fn distinct_ignores_repeats<T>(a: Seq<T>, b: Seq<T>)
    requires
        forall|k: int| 0 <= k < b.len() ==> a.contains(#[trigger] b[k]),
    ensures
        distinct(a + b) == distinct(a),
    decreases b.len(),
{
    if b.len() == 0 {
        assert(a + b =~= a);
    } else {
        let front = b.drop_last();
        assert forall|k: int| 0 <= k < front.len() implies a.contains(#[trigger] front[k]) by {
            assert(front[k] == b[k]);
        }
        distinct_ignores_repeats(a, front);
        distinct_keeps_each_once(a);
        assert((a + b).drop_last() =~= a + front);
        assert(a.contains(b[b.len() - 1]));
        assert(distinct(a).contains(b.last()));
    }
}

/// Where nothing repeats, the first occurrences are all there is.
pub proof fn distinct_of_distinct<T>(s: Seq<T>)
    requires
        s.no_duplicates(),
    ensures
        distinct(s) == s,
    decreases s.len(),
{
    if s.len() > 0 {
        let front = s.drop_last();
        assert(front.no_duplicates());
        distinct_of_distinct(front);
        assert(!front.contains(s.last()));
        assert(front.push(s.last()) =~= s);
    }
}

/// The number that some decimal digits stand for.
pub open spec fn read_digits(s: Seq<char>) -> int
    decreases s.len(),
{
    if s.len() == 0 {
        0
    } else {
        read_digits(s.drop_last()) * 10 + (s.last() as u32 - '0' as u32)
    }
}

/// Whether a text is made of decimal digits.
pub open spec fn all_digits(s: Seq<char>) -> bool {
    forall|i: int| 0 <= i < s.len() ==> '0' <= #[trigger] s[i] <= '9'
}

proof fn natural_numbers_are_read_back(n: nat)
    ensures
        read_digits(decimal_nat(n)) == n,
        all_digits(decimal_nat(n)),
        decimal_nat(n).len() > 0,
        n > 0 ==> decimal_nat(n)[0] != '0',
    decreases n,
{
    if n < 10 {
        let s = decimal_nat(n);
        assert(s.drop_last() =~= Seq::<char>::empty());
        assert(read_digits(s.drop_last()) == 0);
    } else {
        natural_numbers_are_read_back(n / 10);
        assert(decimal_nat(n).drop_last() =~= decimal_nat(n / 10));
    }
}

/// A number in decimal is read back from its digits, which start with a zero only
/// where it is zero; a minus sign stands before them where it is negative.
pub proof fn numbers_are_read_back(n: int)
    ensures
        n >= 0 ==> all_digits(decimal(n)) && read_digits(decimal(n)) == n && decimal(n).len() > 0,
        n < 0 ==> decimal(n).len() > 1 && decimal(n)[0] == '-' && all_digits(decimal(n).skip(1))
            && read_digits(decimal(n).skip(1)) == -n,
        n > 0 ==> decimal(n)[0] != '0',
        n < 0 ==> decimal(n)[1] != '0',
{
    if n < 0 {
        natural_numbers_are_read_back((-n) as nat);
        assert(decimal(n).skip(1) =~= decimal_nat((-n) as nat));
    } else {
        natural_numbers_are_read_back(n as nat);
    }
}

/// Entries are cut at commas, semicolons and white space, words at white space,
/// and addresses at the at sign; nothing else cuts.
pub proof fn texts_are_cut_where_they_should(c: char)
    ensures
        cuts(Cut::Entry, ','),
        cuts(Cut::Entry, ';'),
        white_space(c) ==> cuts(Cut::Entry, c) && cuts(Cut::Blank, c),
        c != ',' && c != ';' && !white_space(c) ==> !cuts(Cut::Entry, c),
        !white_space(c) ==> !cuts(Cut::Blank, c),
        cuts(Cut::At, c) <==> c == '@',
        white_space(' ') && white_space('\n') && white_space('\t') && white_space('\r'),
        '!' <= c <= '~' ==> !white_space(c),
{
}

/// White space at either end does not matter to what is left of a text without it.
pub proof fn white_space_is_trimmed(s: Seq<char>, c: char)
    requires
        white_space(c),
    ensures
        trimmed(seq![c] + s) == trimmed(s),
        trimmed(s + seq![c]) == trimmed(s),
{
    assert((seq![c] + s).drop_first() =~= s);
    let t = s + seq![c];
    trimmed_start_of_more(s, c);
    if trimmed_start(s).len() > 0 {
        let body = trimmed_start(s);
        assert((body + seq![c]).drop_last() =~= body);
    }
}

proof fn trimmed_start_of_more(s: Seq<char>, c: char)
    requires
        white_space(c),
    ensures
        trimmed_start(s).len() > 0 ==> trimmed_start(s + seq![c]) == trimmed_start(s) + seq![c],
        trimmed_start(s).len() == 0 ==> trimmed_start(s + seq![c]).len() == 0,
    decreases s.len(),
{
    if s.len() == 0 {
        let t = s + seq![c];
        assert(t.drop_first() =~= Seq::<char>::empty());
        assert(trimmed_start(t) == trimmed_start(t.drop_first()));
    } else if white_space(s[0]) {
        assert((s + seq![c]).drop_first() =~= s.drop_first() + seq![c]);
        trimmed_start_of_more(s.drop_first(), c);
    }
}

/// Replacing goes character by character: the one that is replaced gives the text in
/// its place, any other itself.
pub proof fn characters_are_replaced_in_turn(s: Seq<char>, d: char, c: char, by: Seq<char>)
    ensures
        replaced(Seq::empty(), c, by) == Seq::<char>::empty(),
        replaced(s.push(c), c, by) == replaced(s, c, by) + by,
        d != c ==> replaced(s.push(d), c, by) == replaced(s, c, by).push(d),
{
    assert(s.push(c).drop_last() =~= s);
    assert(s.push(d).drop_last() =~= s);
    if d != c {
        assert(replaced(s.push(d), c, by) =~= replaced(s, c, by).push(d));
    }
}

/// Capital and small letters of ASCII lie thirty-two apart; other characters have one
/// form here.
pub proof fn letters_have_two_sizes(c: char)
    ensures
        'A' <= c <= 'Z' ==> small(c) as u32 == c as u32 + 32,
        'a' <= c <= 'z' ==> capital(c) as u32 == c as u32 - 32,
        !('A' <= c <= 'Z') ==> small(c) == c,
        !('a' <= c <= 'z') ==> capital(c) == c,
{
}

/// A text with no white space at its ends stays as it is.
pub proof fn tight_texts_are_not_trimmed(s: Seq<char>)
    requires
        s.len() == 0 || (!white_space(s[0]) && !white_space(s.last())),
    ensures
        trimmed(s) == s,
{
}

/// Of equal entries the first is kept, and the others keep their order.
pub proof fn first_entries_are_kept<T>(s: Seq<T>, x: T)
    ensures
        distinct(Seq::<T>::empty()).len() == 0,
        s.contains(x) ==> distinct(s.push(x)) == distinct(s),
        !s.contains(x) ==> distinct(s.push(x)) == distinct(s).push(x),
{
    distinct_keeps_each_once(s);
    assert(s.push(x).drop_last() =~= s);
}

} // verus!
