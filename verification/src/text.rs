//! Text as sequences of characters: trimming, splitting, searching and number formatting.
use vstd::prelude::*;

verus! {

/// `String::push` appends the given character to the end of the string.
pub assume_specification[ String::push ](s: &mut String, c: char)
    ensures
        final(s)@ == old(s)@.push(c),
;

/// `str`'s `==` holds exactly when both strings are made of the same characters.
pub assume_specification[ <str as PartialEq<str>>::eq ](left: &str, right: &str) -> (same: bool)
    ensures
        same == (left@ == right@),
;

/// Whether both strings are made of the same characters.
pub fn same_text(left: &str, right: &str) -> (same: bool)
    ensures
        same == (left@ == right@),
{
    str::eq(left, right)
}

/// The characters of `text`, in order.
pub fn chars_of(text: &str) -> (chars: Vec<char>)
    ensures
        chars@ == text@,
{
    let mut chars: Vec<char> = Vec::new();
    for c in it: text.chars()
        invariant
            it.seq() == text@,
            chars@ == text@.take(it.index() as int),
    {
        chars.push(c);
        assert(text@.take(it.index() as int + 1) == text@.take(it.index() as int).push(c));
    }
    assert(text@.take(text@.len() as int) == text@);
    chars
}

/// The string made of `chars[from..to]`.
pub fn string_from(chars: &Vec<char>, from: usize, to: usize) -> (text: String)
    requires
        from <= to <= chars@.len(),
    ensures
        text@ == chars@.subrange(from as int, to as int),
{
    let mut text = String::new();
    let mut i: usize = from;
    while i < to
        invariant
            from <= i <= to <= chars@.len(),
            text@ == chars@.subrange(from as int, i as int),
        decreases to - i,
    {
        text.push(chars[i]);
        assert(chars@.subrange(from as int, i + 1) == chars@.subrange(from as int, i as int).push(
            chars@[i as int],
        ));
        i = i + 1;
    }
    text
}

/// A set of characters that text is trimmed of or split at.
pub enum CharClass {
    /// Unicode white space.
    Whitespace,
    /// Punctuation that tends to cling to a link pasted from prose.
    LinkPunctuation,
    /// White space, quotation marks and angle brackets.
    LinkSeparator,
    /// One character.
    Only(char),
}

/// Unicode's `White_Space` property.
pub open spec fn is_whitespace(c: char) -> bool {
    let code = c as u32;
    ||| 0x09 <= code <= 0x0d
    ||| code == 0x20
    ||| code == 0x85
    ||| code == 0xa0
    ||| code == 0x1680
    ||| 0x2000 <= code <= 0x200a
    ||| code == 0x2028
    ||| code == 0x2029
    ||| code == 0x202f
    ||| code == 0x205f
    ||| code == 0x3000
}

impl CharClass {
    /// Whether `c` belongs to the class.
    pub open spec fn has(self, c: char) -> bool {
        match self {
            CharClass::Whitespace => is_whitespace(c),
            CharClass::LinkPunctuation => c == ')' || c == ']' || c == ',' || c == ';' || c == '.',
            CharClass::LinkSeparator => is_whitespace(c) || c == '"' || c == '\'' || c == '<' || c
                == '>',
            CharClass::Only(only) => c == only,
        }
    }

    /// Whether `c` belongs to the class.
    pub fn contains(&self, c: char) -> (found: bool)
        ensures
            found == self.has(c),
    {
        let code: u32 = c as u32;
        let white = (0x09 <= code && code <= 0x0d) || code == 0x20 || code == 0x85 || code == 0xa0
            || code == 0x1680 || (0x2000 <= code && code <= 0x200a) || code == 0x2028 || code
            == 0x2029 || code == 0x202f || code == 0x205f || code == 0x3000;
        match self {
            CharClass::Whitespace => white,
            CharClass::LinkPunctuation => c == ')' || c == ']' || c == ',' || c == ';' || c == '.',
            CharClass::LinkSeparator => white || c == '"' || c == '\'' || c == '<' || c == '>',
            CharClass::Only(only) => c == *only,
        }
    }
}

/// `s` without the characters of `class` that it starts with.
pub open spec fn trimmed_start(s: Seq<char>, class: CharClass) -> Seq<char>
    decreases s.len(),
{
    if s.len() > 0 && class.has(s.first()) {
        trimmed_start(s.drop_first(), class)
    } else {
        s
    }
}

/// `s` without the characters of `class` that it ends with.
pub open spec fn trimmed_end(s: Seq<char>, class: CharClass) -> Seq<char>
    decreases s.len(),
{
    if s.len() > 0 && class.has(s.last()) {
        trimmed_end(s.drop_last(), class)
    } else {
        s
    }
}

/// `s` without the characters of `class` that it starts and ends with.
pub open spec fn trimmed(s: Seq<char>, class: CharClass) -> Seq<char> {
    trimmed_end(trimmed_start(s, class), class)
}

/// `s` without leading and trailing white space.
pub open spec fn trim(s: Seq<char>) -> Seq<char> {
    trimmed(s, CharClass::Whitespace)
}

/// What trimming leaves is a stretch of the text that neither starts nor ends in the class.
pub proof fn trimmed_is_inner_stretch(s: Seq<char>, class: CharClass)
    ensures
        exists|from: int, to: int|
            0 <= from <= to <= s.len() && trimmed(s, class) == #[trigger] s.subrange(from, to),
        trimmed(s, class).len() > 0 ==> !class.has(trimmed(s, class).first()) && !class.has(
            trimmed(s, class).last(),
        ),
{
    lemma_trimmed_start(s, class);
    let head = trimmed_start(s, class);
    lemma_trimmed_end(head, class);
    let from = s.len() - head.len();
    let to = from + trimmed_end(head, class).len();
    assert(trimmed(s, class) == s.subrange(from, to));
}

proof fn lemma_trimmed_start(s: Seq<char>, class: CharClass)
    ensures
        trimmed_start(s, class).len() <= s.len(),
        trimmed_start(s, class) == s.skip(s.len() - trimmed_start(s, class).len()),
        trimmed_start(s, class).len() > 0 ==> !class.has(trimmed_start(s, class).first()),
    decreases s.len(),
{
    if s.len() > 0 && class.has(s.first()) {
        lemma_trimmed_start(s.drop_first(), class);
        let inner = trimmed_start(s.drop_first(), class);
        assert(s.skip(s.len() - inner.len()) == s.drop_first().skip(
            s.drop_first().len() - inner.len(),
        ));
    } else {
        assert(s == s.skip(0));
    }
}

proof fn lemma_trimmed_end(s: Seq<char>, class: CharClass)
    ensures
        trimmed_end(s, class).len() <= s.len(),
        trimmed_end(s, class) == s.take(trimmed_end(s, class).len() as int),
        trimmed_end(s, class).len() > 0 ==> !class.has(trimmed_end(s, class).last()),
    decreases s.len(),
{
    if s.len() > 0 && class.has(s.last()) {
        lemma_trimmed_end(s.drop_last(), class);
        let inner = trimmed_end(s.drop_last(), class);
        assert(s.take(inner.len() as int) == s.drop_last().take(inner.len() as int));
    } else {
        assert(s == s.take(s.len() as int));
    }
}

/// Text that neither starts nor ends in the class is left alone by trimming.
pub proof fn trimming_keeps_trimmed_text(s: Seq<char>, class: CharClass)
    requires
        s.len() > 0 ==> !class.has(s.first()) && !class.has(s.last()),
    ensures
        trimmed(s, class) == s,
{
}

/// `text` without the characters of `class` that it starts and ends with.
pub fn trim_class(text: &str, class: CharClass) -> (inner: String)
    ensures
        inner@ == trimmed(text@, class),
{
    let chars = chars_of(text);
    let mut from: usize = 0;
    assert(text@.skip(0) == text@);
    while from < chars.len() && class.contains(chars[from])
        invariant
            chars@ == text@,
            from <= chars@.len(),
            trimmed_start(text@.skip(from as int), class) == trimmed_start(text@, class),
        decreases chars@.len() - from,
    {
        assert(text@.skip(from as int).drop_first() == text@.skip(from + 1));
        from = from + 1;
    }
    let ghost head = text@.skip(from as int);
    assert(trimmed_start(text@, class) == head);
    let mut to: usize = chars.len();
    assert(head.take(to - from) == head);
    while from < to && class.contains(chars[to - 1])
        invariant
            chars@ == text@,
            from <= to <= chars@.len(),
            head == text@.skip(from as int),
            trimmed_end(head.take(to - from), class) == trimmed_end(head, class),
        decreases to,
    {
        assert(head.take(to - from).last() == chars@[to - 1]);
        assert(head.take(to - from).drop_last() == head.take(to - 1 - from));
        to = to - 1;
    }
    assert(head.take(to - from) == text@.subrange(from as int, to as int));
    string_from(&chars, from, to)
}

/// `text` without leading and trailing white space.
pub fn trim_text(text: &str) -> (inner: String)
    ensures
        inner@ == trim(text@),
{
    trim_class(text, CharClass::Whitespace)
}

/// Whether `text` is empty or made of white space alone.
pub fn is_blank(text: &str) -> (blank: bool)
    ensures
        blank == (trim(text@).len() == 0),
{
    trim_text(text).as_str().is_empty()
}

/// The pieces of `s` between the characters of `class`: one more than there are such characters.
pub open spec fn split(s: Seq<char>, class: CharClass) -> Seq<Seq<char>>
    decreases s.len(),
{
    if s.len() == 0 {
        seq![Seq::<char>::empty()]
    } else {
        let before = split(s.drop_last(), class);
        if class.has(s.last()) {
            before.push(Seq::<char>::empty())
        } else {
            before.drop_last().push(before.last().push(s.last()))
        }
    }
}

/// The characters of each string.
pub open spec fn views(strings: Seq<String>) -> Seq<Seq<char>> {
    Seq::new(strings.len(), |i: int| strings[i]@)
}

proof fn lemma_split_is_not_empty(s: Seq<char>, class: CharClass)
    ensures
        split(s, class).len() > 0,
    decreases s.len(),
{
    if s.len() > 0 {
        lemma_split_is_not_empty(s.drop_last(), class);
    }
}

/// The pieces of `text` between the characters of `class`.
pub fn split_text(text: &str, class: CharClass) -> (pieces: Vec<String>)
    ensures
        views(pieces@) == split(text@, class),
        pieces@.len() > 0,
{
    let chars = chars_of(text);
    let mut pieces: Vec<String> = Vec::new();
    let mut piece = String::new();
    let mut i: usize = 0;
    assert(text@.take(0).len() == 0);
    assert(views(pieces@).push(piece@) == split(text@.take(0), class));
    while i < chars.len()
        invariant
            chars@ == text@,
            i <= chars@.len(),
            views(pieces@).push(piece@) == split(text@.take(i as int), class),
        decreases chars@.len() - i,
    {
        let c = chars[i];
        assert(text@.take(i + 1).drop_last() == text@.take(i as int));
        assert(text@.take(i + 1).last() == c);
        let ghost before = views(pieces@).push(piece@);
        if class.contains(c) {
            let ghost old_pieces = pieces@;
            pieces.push(piece);
            piece = String::new();
            assert(views(pieces@) == before);
        } else {
            assert(before.drop_last() == views(pieces@));
            piece.push(c);
        }
        i = i + 1;
    }
    assert(text@.take(text@.len() as int) == text@);
    let ghost before = views(pieces@).push(piece@);
    pieces.push(piece);
    assert(views(pieces@) == before);
    proof {
        lemma_split_is_not_empty(text@, class);
    }
    pieces
}

/// Whether `s` holds no character of the class.
pub open spec fn is_unbroken(s: Seq<char>, class: CharClass) -> bool {
    forall|i: int| 0 <= i < s.len() ==> !class.has(#[trigger] s[i])
}

/// Text without a separator is one piece.
pub proof fn unbroken_text_is_one_piece(s: Seq<char>, class: CharClass)
    requires
        is_unbroken(s, class),
    ensures
        split(s, class) == seq![s],
    decreases s.len(),
{
    if s.len() > 0 {
        unbroken_text_is_one_piece(s.drop_last(), class);
        assert(s.drop_last().push(s.last()) == s);
        assert(split(s, class) =~= seq![s]);
    } else {
        assert(s =~= Seq::<char>::empty());
    }
}

/// Splitting undoes joining: what stands behind the last separator is the last piece.
pub proof fn splitting_undoes_joining(
    front: Seq<char>,
    separator: char,
    piece: Seq<char>,
    class: CharClass,
)
    requires
        class.has(separator),
        is_unbroken(piece, class),
    ensures
        split(front.push(separator) + piece, class) == split(front, class).push(piece),
    decreases piece.len(),
{
    let all = front.push(separator) + piece;
    if piece.len() == 0 {
        assert(all.drop_last() =~= front);
        assert(piece =~= Seq::<char>::empty());
    } else {
        splitting_undoes_joining(front, separator, piece.drop_last(), class);
        assert(all.drop_last() =~= front.push(separator) + piece.drop_last());
        assert(piece.drop_last().push(piece.last()) =~= piece);
        let before = split(front, class).push(piece.drop_last());
        assert(before.drop_last() =~= split(front, class));
    }
}

/// `text` without the character `unwanted`, wherever it stands.
pub fn remove_char(text: &str, unwanted: char) -> (kept: String)
    ensures
        kept@ == text@.filter(|c: char| c != unwanted),
{
    let chars = chars_of(text);
    let mut kept = String::new();
    let mut i: usize = 0;
    let ghost wanted = |c: char| c != unwanted;
    assert(text@.take(0).filter(wanted) == Seq::<char>::empty()) by {
        reveal(Seq::filter);
    }
    while i < chars.len()
        invariant
            chars@ == text@,
            i <= chars@.len(),
            wanted == (|c: char| c != unwanted),
            kept@ == text@.take(i as int).filter(wanted),
        decreases chars@.len() - i,
    {
        let c = chars[i];
        assert(text@.take(i + 1).filter(wanted) == if wanted(c) {
            text@.take(i as int).filter(wanted).push(c)
        } else {
            text@.take(i as int).filter(wanted)
        }) by {
            reveal(Seq::filter);
            assert(text@.take(i + 1).drop_last() == text@.take(i as int));
        }
        if c != unwanted {
            kept.push(c);
        }
        i = i + 1;
    }
    assert(text@.take(text@.len() as int) == text@);
    kept
}

/// Whether `s` starts with `prefix`.
pub open spec fn starts_with(s: Seq<char>, prefix: Seq<char>) -> bool {
    prefix.len() <= s.len() && s.take(prefix.len() as int) == prefix
}

/// Whether `part` stands somewhere in `s`.
pub open spec fn contains_text(s: Seq<char>, part: Seq<char>) -> bool {
    exists|at: int|
        0 <= at && at + part.len() <= s.len() && #[trigger] s.subrange(at, at + part.len()) == part
}

/// Whether `chars` holds `part` at position `at`.
fn matches_at(chars: &Vec<char>, part: &Vec<char>, at: usize) -> (found: bool)
    requires
        at + part@.len() <= chars@.len(),
    ensures
        found == (chars@.subrange(at as int, at + part@.len()) == part@),
{
    let total: usize = chars.len();
    let mut i: usize = 0;
    while i < part.len()
        invariant
            i <= part@.len(),
            at + part@.len() <= chars@.len() == total,
            forall|j: int| 0 <= j < i ==> chars@[at + j] == part@[j],
        decreases part@.len() - i,
    {
        if chars[at + i] != part[i] {
            assert(chars@.subrange(at as int, at + part@.len())[i as int] != part@[i as int]);
            return false;
        }
        i = i + 1;
    }
    assert(chars@.subrange(at as int, at + part@.len()) == part@);
    true
}

/// Whether `text` starts with `prefix`.
pub fn has_prefix(text: &str, prefix: &str) -> (found: bool)
    ensures
        found == starts_with(text@, prefix@),
{
    let chars = chars_of(text);
    let part = chars_of(prefix);
    if part.len() > chars.len() {
        return false;
    }
    assert(chars@.subrange(0, part@.len() as int) == chars@.take(part@.len() as int));
    matches_at(&chars, &part, 0)
}

/// Whether `part` stands somewhere in `text`.
pub fn has_part(text: &str, part: &str) -> (found: bool)
    ensures
        found == contains_text(text@, part@),
{
    let chars = chars_of(text);
    let part_chars = chars_of(part);
    if part_chars.len() > chars.len() {
        return false;
    }
    let last: usize = chars.len() - part_chars.len();
    let mut at: usize = 0;
    while at <= last
        invariant
            chars@ == text@,
            part_chars@ == part@,
            last == chars@.len() - part_chars@.len(),
            at <= last + 1,
            forall|j: int|
                0 <= j < at ==> #[trigger] text@.subrange(j, j + part@.len()) != part@,
        decreases last + 1 - at,
    {
        if matches_at(&chars, &part_chars, at) {
            return true;
        }
        if at == last {
            return false;
        }
        at = at + 1;
    }
    false
}

/// `c` with an upper-case ASCII letter turned into its lower-case form.
pub open spec fn ascii_lower(c: char) -> char {
    if 'A' <= c && c <= 'Z' {
        ((c as u8) + 32) as u8 as char
    } else {
        c
    }
}

/// `text` with its upper-case ASCII letters turned into their lower-case forms.
pub fn to_ascii_lower(text: &str) -> (lower: String)
    ensures
        lower@ == text@.map_values(|c: char| ascii_lower(c)),
{
    let chars = chars_of(text);
    let mut lower = String::new();
    let mut i: usize = 0;
    while i < chars.len()
        invariant
            chars@ == text@,
            i <= chars@.len(),
            lower@ == text@.take(i as int).map_values(|c: char| ascii_lower(c)),
        decreases chars@.len() - i,
    {
        let c = chars[i];
        let low: char = if 'A' <= c && c <= 'Z' {
            ((c as u8) + 32) as char
        } else {
            c
        };
        lower.push(low);
        assert(text@.take(i + 1).map_values(|c: char| ascii_lower(c)) == text@.take(
            i as int,
        ).map_values(|c: char| ascii_lower(c)).push(low));
        i = i + 1;
    }
    assert(text@.take(text@.len() as int) == text@);
    lower
}

/// The decimal digit of value `d`.
pub open spec fn digit(d: nat) -> char {
    ((48 + d) as u8) as char
}

/// `n` written in decimal, without leading zeros.
pub open spec fn decimal(n: nat) -> Seq<char>
    decreases n,
{
    if n < 10 {
        seq![digit(n)]
    } else {
        decimal(n / 10).push(digit(n % 10))
    }
}

/// Appends `n` in decimal.
pub fn push_decimal(out: &mut String, n: u128)
    ensures
        final(out)@ == old(out)@ + decimal(n as nat),
    decreases n,
{
    if n >= 10 {
        push_decimal(out, n / 10);
    }
    let d: u8 = 48 + (n % 10) as u8;
    out.push(d as char);
    assert(out@ == old(out)@ + decimal(n as nat));
}

/// The value of a decimal digit.
pub open spec fn digit_value(c: char) -> nat {
    ((c as u32) - 48) as nat
}

/// The number that a run of decimal digits stands for.
pub open spec fn decimal_value(s: Seq<char>) -> nat
    decreases s.len(),
{
    if s.len() == 0 {
        0
    } else {
        decimal_value(s.drop_last()) * 10 + digit_value(s.last())
    }
}

/// Reading a number's decimal form gives the number back.
pub proof fn decimal_reads_back(n: nat)
    ensures
        decimal_value(decimal(n)) == n,
        decimal(n).len() > 0,
    decreases n,
{
    reveal_with_fuel(decimal_value, 2);
    if n < 10 {
        assert(decimal(n).drop_last() == Seq::<char>::empty());
    } else {
        decimal_reads_back(n / 10);
        assert(decimal(n).drop_last() == decimal(n / 10));
    }
}

/// `s` with `'0'` put in front until it is at least `width` characters long.
pub open spec fn zero_padded(s: Seq<char>, width: nat) -> Seq<char> {
    Seq::new(if s.len() < width { (width - s.len()) as nat } else { 0 }, |i: int| '0') + s
}

/// Appends `n` in decimal, with leading zeros up to `width` characters.
pub fn push_padded(out: &mut String, n: u128, width: usize)
    ensures
        final(out)@ == old(out)@ + zero_padded(decimal(n as nat), width as nat),
{
    let mut digits = String::new();
    push_decimal(&mut digits, n);
    let len: usize = chars_of(&digits).len();
    let mut i: usize = len;
    let ghost before = out@;
    while i < width
        invariant
            len <= i,
            len < width ==> i <= width,
            len >= width ==> i == len,
            out@ == before + Seq::new((i - len) as nat, |i: int| '0'),
        decreases width - i,
    {
        out.push('0');
        i = i + 1;
        assert(out@ == before + Seq::new((i - len) as nat, |i: int| '0'));
    }
    out.append(&digits);
    assert(out@ == before + zero_padded(decimal(n as nat), width as nat));
}

/// Trimming takes away what stands at the edges and nothing else: the characters of the class before
/// and behind text that neither starts nor ends in the class.
pub proof fn trimming_takes_the_edges(
    before: Seq<char>,
    inner: Seq<char>,
    behind: Seq<char>,
    class: CharClass,
)
    requires
        forall|i: int| 0 <= i < before.len() ==> class.has(#[trigger] before[i]),
        forall|i: int| 0 <= i < behind.len() ==> class.has(#[trigger] behind[i]),
        inner.len() > 0,
        !class.has(inner.first()),
        !class.has(inner.last()),
    ensures
        trimmed(before + inner + behind, class) == inner,
{
    let rest = inner + behind;
    assert(before + inner + behind =~= before + rest);
    assert(rest.first() == inner.first());
    lemma_start_goes(before, rest, class);
    lemma_end_goes(inner, behind, class);
}

/// Of text that is made of the class alone, trimming leaves nothing.
pub proof fn trimming_leaves_nothing_of_the_class(s: Seq<char>, class: CharClass)
    requires
        forall|i: int| 0 <= i < s.len() ==> class.has(#[trigger] s[i]),
    ensures
        trimmed(s, class).len() == 0,
{
    lemma_start_goes(s, Seq::empty(), class);
    assert(s + Seq::<char>::empty() =~= s);
}

proof fn lemma_start_goes(before: Seq<char>, rest: Seq<char>, class: CharClass)
    requires
        forall|i: int| 0 <= i < before.len() ==> class.has(#[trigger] before[i]),
        rest.len() > 0 ==> !class.has(rest.first()),
    ensures
        trimmed_start(before + rest, class) == rest,
    decreases before.len(),
{
    if before.len() == 0 {
        assert(before + rest =~= rest);
    } else {
        assert(class.has(before[0]));
        let shorter = before.drop_first();
        assert forall|i: int| 0 <= i < shorter.len() implies class.has(#[trigger] shorter[i]) by {
            assert(shorter[i] == before[i + 1]);
        }
        lemma_start_goes(shorter, rest, class);
        assert((before + rest).drop_first() =~= shorter + rest);
    }
}

proof fn lemma_end_goes(inner: Seq<char>, behind: Seq<char>, class: CharClass)
    requires
        forall|i: int| 0 <= i < behind.len() ==> class.has(#[trigger] behind[i]),
        inner.len() > 0,
        !class.has(inner.last()),
    ensures
        trimmed_end(inner + behind, class) == inner,
    decreases behind.len(),
{
    if behind.len() == 0 {
        assert(inner + behind =~= inner);
    } else {
        assert(class.has(behind[behind.len() - 1]));
        let shorter = behind.drop_last();
        assert forall|i: int| 0 <= i < shorter.len() implies class.has(#[trigger] shorter[i]) by {
            assert(shorter[i] == behind[i]);
        }
        lemma_end_goes(inner, shorter, class);
        assert((inner + behind).drop_last() =~= inner + shorter);
    }
}

/// Of text with a character outside the class, trimming leaves something.
pub proof fn visible_text_stays(s: Seq<char>, i: int)
    requires
        0 <= i < s.len(),
        !CharClass::Whitespace.has(s[i]),
    ensures
        trim(s).len() > 0,
{
    let class = CharClass::Whitespace;
    lemma_start_keeps(s, class, i);
    let head = trimmed_start(s, class);
    lemma_trimmed_start(s, class);
    lemma_end_keeps(head, class, i - (s.len() - head.len()));
}

proof fn lemma_start_keeps(s: Seq<char>, class: CharClass, i: int)
    requires
        0 <= i < s.len(),
        !class.has(s[i]),
    ensures
        trimmed_start(s, class).len() >= s.len() - i,
    decreases s.len(),
{
    if class.has(s.first()) {
        lemma_start_keeps(s.drop_first(), class, i - 1);
    }
}

proof fn lemma_end_keeps(s: Seq<char>, class: CharClass, i: int)
    requires
        0 <= i < s.len(),
        !class.has(s[i]),
    ensures
        trimmed_end(s, class).len() > i,
    decreases s.len(),
{
    if class.has(s.last()) {
        lemma_end_keeps(s.drop_last(), class, i);
    }
}

/// Of the ASCII characters, the space and the five from the tab to the carriage return are white
/// space, and no other is.
pub proof fn ascii_white_space(c: char)
    requires
        c as u32 <= 0x7f,
    ensures
        CharClass::Whitespace.has(c) <==> c == ' ' || c == '\t' || c == '\n' || c == '\r' || c as u32
            == 11 || c as u32 == 12,
{
}

/// Turning letters into lower case keeps their place in the alphabet, and keeps all that are no
/// upper-case ASCII letters.
pub proof fn lower_case_keeps_the_letter(c: char)
    ensures
        'A' <= c && c <= 'Z' ==> 'a' <= ascii_lower(c) && ascii_lower(c) <= 'z' && ascii_lower(
            c,
        ) as u32 - 'a' as u32 == c as u32 - 'A' as u32,
        !('A' <= c && c <= 'Z') ==> ascii_lower(c) == c,
        ascii_lower(ascii_lower(c)) == ascii_lower(c),
{
}

/// A number is written in digits, without a zero in front unless it is zero itself.
pub proof fn decimal_is_made_of_digits(n: nat, i: int)
    requires
        0 <= i < decimal(n).len(),
    ensures
        '0' <= decimal(n)[i] && decimal(n)[i] <= '9',
        n > 0 ==> decimal(n)[0] != '0',
        n == 0 ==> decimal(n).len() == 1,
    decreases n,
{
    if n >= 10 {
        decimal_reads_back(n / 10);
        decimal_is_made_of_digits(n / 10, 0);
        if i < decimal(n / 10).len() {
            decimal_is_made_of_digits(n / 10, i);
        }
    }
}

/// Zeros in front make a number as long as is asked, change nothing of its value, and are only put
/// where it is shorter.
pub proof fn zeros_in_front_keep_the_value(n: nat, width: nat)
    ensures
        decimal_value(zero_padded(decimal(n), width)) == n,
        decimal(n).len() >= width ==> zero_padded(decimal(n), width) == decimal(n),
        decimal(n).len() < width ==> zero_padded(decimal(n), width).len() == width,
    decreases width,
{
    decimal_reads_back(n);
    let s = decimal(n);
    if s.len() >= width {
        assert(zero_padded(s, width) =~= s);
    } else {
        lemma_zeros_in_front(s, (width - s.len()) as nat);
        assert(zero_padded(s, width) =~= Seq::new((width - s.len()) as nat, |i: int| '0') + s);
    }
}

proof fn lemma_zeros_in_front(s: Seq<char>, zeros: nat)
    ensures
        decimal_value(Seq::new(zeros, |i: int| '0') + s) == decimal_value(s),
    decreases s.len() + zeros,
{
    let all = Seq::new(zeros, |i: int| '0') + s;
    if s.len() > 0 {
        lemma_zeros_in_front(s.drop_last(), zeros);
        assert(all.drop_last() =~= Seq::new(zeros, |i: int| '0') + s.drop_last());
    } else if zeros > 0 {
        lemma_zeros_in_front(s, (zeros - 1) as nat);
        assert(all.drop_last() =~= Seq::new((zeros - 1) as nat, |i: int| '0') + s);
        assert(all.last() == '0');
    } else {
        assert(all =~= s);
    }
}

/// Text starts with each of its fronts, and contains each of its stretches. What it starts with is
/// its front, and what it contains stands somewhere in it.
pub proof fn text_contains_its_stretches(front: Seq<char>, part: Seq<char>, rest: Seq<char>)
    ensures
        starts_with(part + rest, part),
        contains_text(front + part + rest, part),
        starts_with(rest, part) ==> rest.len() >= part.len() && part + rest.skip(part.len() as int)
            == rest,
        contains_text(rest, part) ==> exists|at: int|
            0 <= at <= rest.len() - part.len() && #[trigger] rest.subrange(at, at + part.len())
                == part,
{
    assert((part + rest).take(part.len() as int) =~= part);
    let all = front + part + rest;
    assert(all.subrange(front.len() as int, (front.len() + part.len()) as int) =~= part);
    if starts_with(rest, part) {
        assert(part + rest.skip(part.len() as int) =~= rest);
    }
}

/// What stands before a separator stays in the pieces before it, whatever follows.
pub proof fn pieces_before_a_separator_stay(
    front: Seq<char>,
    separator: char,
    rest: Seq<char>,
    class: CharClass,
)
    requires
        class.has(separator),
    ensures
        split(front.push(separator) + rest, class).len() > split(front, class).len(),
        split(front.push(separator) + rest, class).take(split(front, class).len() as int) == split(
            front,
            class,
        ),
    decreases rest.len(),
{
    let all = front.push(separator) + rest;
    let pieces = split(front, class);
    let n = pieces.len() as int;
    lemma_split_is_not_empty(front, class);
    if rest.len() == 0 {
        assert(all.drop_last() =~= front);
        assert(split(all, class).take(n) =~= pieces);
    } else {
        pieces_before_a_separator_stay(front, separator, rest.drop_last(), class);
        assert(all.drop_last() =~= front.push(separator) + rest.drop_last());
        let before = split(all.drop_last(), class);
        assert forall|i: int| 0 <= i < n implies #[trigger] split(all, class)[i] == pieces[i] by {
            assert(before.take(n)[i] == before[i]);
        }
        assert(split(all, class).take(n) =~= pieces);
    }
}

/// Taking a character out leaves every other one, in order, and none of it.
pub proof fn removed_characters_are_gone(
    front: &str,
    rest: &str,
    all: &str,
    unwanted: char,
    front_kept: String,
    rest_kept: String,
    kept: String,
)
    requires
        all@ == front@ + rest@,
        call_ensures(remove_char, (front, unwanted), front_kept),
        call_ensures(remove_char, (rest, unwanted), rest_kept),
        call_ensures(remove_char, (all, unwanted), kept),
    ensures
        kept@ == front_kept@ + rest_kept@,
        !kept@.contains(unwanted),
        all@.len() == 1 ==> kept@ == (if all@[0] == unwanted {
            Seq::empty()
        } else {
            all@
        }),
{
    let wanted = |c: char| c != unwanted;
    Seq::filter_distributes_over_add(front@, rest@, wanted);
    if kept@.contains(unwanted) {
        let i = choose|i: int| 0 <= i < kept@.len() && kept@[i] == unwanted;
        all@.lemma_filter_pred(wanted, i);
    }
    if all@.len() == 1 {
        reveal(Seq::filter);
        assert(all@.drop_last() =~= Seq::<char>::empty());
        assert(all@.drop_last().filter(wanted) =~= Seq::<char>::empty());
        assert(all@ =~= Seq::<char>::empty().push(all@[0]));
    }
}

/// Beyond ASCII, white space is made of the next-line character, the spaces of other widths, and
/// the separators of lines and paragraphs.
pub proof fn other_white_space(c: char)
    requires
        c as u32 > 0x7f,
    ensures
        CharClass::Whitespace.has(c) <==> c == '\u{85}' || c == '\u{a0}' || c == '\u{1680}' || (
        '\u{2000}' <= c && c <= '\u{200a}') || c == '\u{2028}' || c == '\u{2029}' || c == '\u{202f}'
            || c == '\u{205f}' || c == '\u{3000}',
{
}

/// Links are set apart by white space, quotation marks and angle brackets alone, and may have
/// closing brackets, commas, semicolons and dots around them. A class of one character holds it
/// alone.
pub proof fn classes_hold_their_characters(c: char, only: char)
    ensures
        CharClass::LinkSeparator.has(c) <==> CharClass::Whitespace.has(c) || c == '"' || c == '\''
            || c == '<' || c == '>',
        CharClass::LinkPunctuation.has(c) <==> c == ')' || c == ']' || c == ',' || c == ';' || c
            == '.',
        CharClass::Only(only).has(c) <==> c == only,
{
}

} // verus!
