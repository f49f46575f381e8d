//! Small text helpers: comparison of strings and decimal rendering of integers.

use vstd::prelude::*;
use vstd::utf8::*;

verus! {

/// The decimal digit `d` as a character.
pub open spec fn digit(d: int) -> char
    recommends
        0 <= d < 10,
{
    (('0' as u32) + d) as char
}

/// Decimal digits of a natural number, most significant first, no leading zeros.
pub open spec fn dec_nat(n: nat) -> Seq<char>
    decreases n,
{
    if n < 10 {
        seq![digit(n as int)]
    } else {
        dec_nat(n / 10).push(digit((n % 10) as int))
    }
}

/// Decimal rendering of an integer, with a leading minus sign for negative ones.
pub open spec fn dec(n: int) -> Seq<char> {
    if n < 0 {
        seq!['-'] + dec_nat((-n) as nat)
    } else {
        dec_nat(n as nat)
    }
}

/// Whether two strings hold the same characters.
pub fn same(a: &str, b: &str) -> (r: bool)
    ensures
        r == (a@ == b@),
{
    let x = a.as_bytes();
    let y = b.as_bytes();
    proof {
        encode_utf8_decode_utf8(a@);
        encode_utf8_decode_utf8(b@);
    }
    if x.len() != y.len() {
        return false;
    }
    let mut i: usize = 0;
    while i < x.len()
        invariant
            i <= x.len(),
            x.len() == y.len(),
            forall|j: int| 0 <= j < i ==> x@[j] == y@[j],
            x@ == encode_utf8(a@),
            y@ == encode_utf8(b@),
        decreases x.len() - i,
    {
        if x[i] != y[i] {
            return false;
        }
        i = i + 1;
    }
    assert(x@ =~= y@);
    true
}

/// Append one decimal digit.
fn push_digit(s: &mut String, d: u64)
    requires
        d < 10,
    ensures
        final(s)@ == old(s)@.push(digit(d as int)),
{
    proof {
        reveal_strlit("0");
        reveal_strlit("1");
        reveal_strlit("2");
        reveal_strlit("3");
        reveal_strlit("4");
        reveal_strlit("5");
        reveal_strlit("6");
        reveal_strlit("7");
        reveal_strlit("8");
        reveal_strlit("9");
    }
    let t: &str = match d {
        0 => "0",
        1 => "1",
        2 => "2",
        3 => "3",
        4 => "4",
        5 => "5",
        6 => "6",
        7 => "7",
        8 => "8",
        _ => "9",
    };
    assert(t@ =~= seq![digit(d as int)]);
    let ghost before = s@;
    s.append(t);
    assert(s@ =~= before.push(digit(d as int)));
}

/// Append the decimal rendering of `n`.
fn push_nat(s: &mut String, n: u64)
    ensures
        final(s)@ == old(s)@ + dec_nat(n as nat),
    decreases n,
{
    let ghost before = s@;
    if n >= 10 {
        push_nat(s, n / 10);
        push_digit(s, n % 10);
        assert(s@ =~= before + dec_nat(n as nat));
    } else {
        push_digit(s, n);
        assert(s@ =~= before + dec_nat(n as nat));
    }
}

/// `n` in decimal.
pub fn show_u64(n: u64) -> (r: String)
    ensures
        r@ == dec(n as int),
{
    let mut s = String::new();
    push_nat(&mut s, n);
    assert(s@ =~= dec(n as int));
    s
}

/// `n` in decimal, with a leading minus sign when it is negative.
pub fn show_i64(n: i64) -> (r: String)
    ensures
        r@ == dec(n as int),
{
    let mut s = String::new();
    if n < 0 {
        proof {
            reveal_strlit("-");
        }
        s.append("-");
        let m: u64 = if n == i64::MIN {
            0x8000_0000_0000_0000u64
        } else {
            (-n) as u64
        };
        push_nat(&mut s, m);
        assert(s@ =~= dec(n as int));
    } else {
        push_nat(&mut s, n as u64);
        assert(s@ =~= dec(n as int));
    }
    s
}

/// The characters of a string.
pub fn chars_of(s: &str) -> (r: Vec<char>)
    ensures
        r@ == s@,
{
    let mut out: Vec<char> = Vec::new();
    let mut it = s.chars();
    let ghost all = s@;
    for c in iter: it
        invariant
            iter.seq() == all,
            out@ == all.take(iter.index()),
    {
        assert(all.take(iter.index() + 1) =~= all.take(iter.index()).push(c));
        out.push(c);
    }
    assert(all.take(all.len() as int) =~= all);
    out
}

/// Whether `needle` occurs in `hay` at position `k`.
pub open spec fn occurs_at<T>(hay: Seq<T>, needle: Seq<T>, k: int) -> bool {
    0 <= k && k + needle.len() <= hay.len() && hay.subrange(k, k + needle.len()) == needle
}

/// Whether `needle` occurs in `hay`.
pub open spec fn occurs<T>(hay: Seq<T>, needle: Seq<T>) -> bool {
    exists|k: int| occurs_at(hay, needle, k)
}

/// Whether `needle` occurs in `hay`.
pub fn has_text(hay: &str, needle: &str) -> (r: bool)
    ensures
        r == occurs(hay@, needle@),
{
    let h = chars_of(hay);
    let n = chars_of(needle);
    if n.len() > h.len() {
        return false;
    }
    let mut k: usize = 0;
    while k <= h.len() - n.len()
        invariant
            h@ == hay@,
            n@ == needle@,
            n.len() <= h.len(),
            k <= h.len() - n.len() + 1,
            forall|m: int| 0 <= m < k ==> !occurs_at(hay@, needle@, m),
        decreases h.len() - n.len() + 1 - k,
    {
        let mut j: usize = 0;
        let mut ok: bool = true;
        while j < n.len() && ok
            invariant
                h@ == hay@,
                n@ == needle@,
                j <= n.len(),
                k + n.len() <= h.len(),
                ok ==> forall|m: int| 0 <= m < j ==> h@[k + m] == n@[m],
                !ok ==> j < n.len() && h@[k + j] != n@[j as int],
            decreases n.len() - j,
                (if ok {
                    1int
                } else {
                    0int
                }),
        {
            if h[k + j] != n[j] {
                ok = false;
            } else {
                j = j + 1;
            }
        }
        if ok {
            assert(hay@.subrange(k as int, k + needle@.len()) =~= needle@);
            assert(occurs_at(hay@, needle@, k as int));
            return true;
        }
        assert(hay@.subrange(k as int, k + needle@.len())[j as int] != needle@[j as int]);
        k = k + 1;
    }
    false
}

/// `String::push`: appends one character.
pub assume_specification[ std::string::String::push ](s: &mut std::string::String, c: char)
    ensures
        final(s)@ == old(s)@.push(c),
;

/// The string that spells the characters from `from` up to `to`.
pub fn string_of(chars: &Vec<char>, from: usize, to: usize) -> (r: String)
    requires
        from <= to <= chars.len(),
    ensures
        r@ == chars@.subrange(from as int, to as int),
{
    let mut s = String::new();
    let mut i: usize = from;
    assert(s@ =~= chars@.subrange(from as int, from as int));
    while i < to
        invariant
            from <= i <= to <= chars.len(),
            s@ == chars@.subrange(from as int, i as int),
        decreases to - i,
    {
        s.push(chars[i]);
        i = i + 1;
        assert(s@ =~= chars@.subrange(from as int, i as int));
    }
    s
}

/// A character in lower case, if it is an ASCII letter.
pub open spec fn lower_char(c: char) -> char {
    if 'A' <= c && c <= 'Z' {
        ((c as u32 + 32) as u8) as char
    } else {
        c
    }
}

/// A text with its ASCII letters in lower case.
pub open spec fn lowered(s: Seq<char>) -> Seq<char> {
    s.map_values(|c: char| lower_char(c))
}

/// A text with its ASCII letters in lower case.
pub fn lower(s: &str) -> (r: String)
    ensures
        r@ == lowered(s@),
{
    let cs: Vec<char> = chars_of(s);
    let mut out: Vec<char> = Vec::new();
    let mut i: usize = 0;
    while i < cs.len()
        invariant
            i <= cs.len(),
            out@.len() == i,
            forall|j: int| 0 <= j < i ==> #[trigger] out@[j] == lower_char(cs@[j]),
        decreases cs.len() - i,
    {
        let c: char = cs[i];
        if 'A' <= c && c <= 'Z' {
            out.push((c as u8 + 32) as char);
        } else {
            out.push(c);
        }
        i = i + 1;
    }
    assert(out@ =~= lowered(s@));
    let n: usize = out.len();
    assert(out@.subrange(0, n as int) =~= out@);
    string_of(&out, 0, n)
}

/// Whether two texts are the same but for the case of ASCII letters.
pub fn same_letters(a: &str, b: &str) -> (r: bool)
    ensures
        r == (lowered(a@) == lowered(b@)),
{
    let x: String = lower(a);
    let y: String = lower(b);
    same(x.as_str(), y.as_str())
}

/// A note, where it applies.
pub open spec fn part(applies: bool, note: Seq<char>) -> Seq<char> {
    if applies {
        note
    } else {
        Seq::empty()
    }
}

/// Add a note, where it applies.
pub fn add_note(s: &mut String, applies: bool, note: &str)
    ensures
        final(s)@ == old(s)@ + part(applies, note@),
{
    if applies {
        s.append(note);
    } else {
        assert(s@ + Seq::<char>::empty() =~= s@);
    }
}

/// What a row of words says.
pub open spec fn words(s: Seq<&'static str>) -> Seq<Seq<char>> {
    s.map_values(|w: &'static str| w@)
}

/// A word, where it applies.
pub open spec fn word(applies: bool, name: Seq<char>) -> Seq<Seq<char>> {
    if applies {
        seq![name]
    } else {
        Seq::empty()
    }
}

/// Add a word, where it applies.
pub fn add_word(list: &mut Vec<&'static str>, applies: bool, name: &'static str)
    ensures
        words(final(list)@) == words(old(list)@) + word(applies, name@),
{
    let ghost before = list@;
    if applies {
        list.push(name);
        assert(words(list@) =~= words(before).push(name@));
    }
    assert(words(list@) =~= words(before) + word(applies, name@));
}

/// Words in a row, with a text between each two.
pub open spec fn joined(s: Seq<Seq<char>>, between: Seq<char>) -> Seq<char>
    decreases s.len(),
{
    if s.len() == 0 {
        Seq::empty()
    } else if s.len() == 1 {
        s[0]
    } else {
        joined(s.drop_last(), between) + between + s.last()
    }
}

/// Words in a row, with a text between each two.
pub fn join(list: &Vec<&'static str>, between: &str) -> (r: String)
    ensures
        r@ == joined(words(list@), between@),
{
    let ghost all = words(list@);
    let mut s: String = String::new();
    let mut i: usize = 0;
    assert(s@ =~= joined(all.take(0), between@));
    while i < list.len()
        invariant
            i <= list.len(),
            all == words(list@),
            s@ == joined(all.take(i as int), between@),
        decreases list.len() - i,
    {
        let ghost before = s@;
        let ghost next = all.take(i as int + 1);
        assert(next.drop_last() =~= all.take(i as int));
        assert(next.last() == list@[i as int]@);
        if i > 0 {
            s.append(between);
        }
        s.append(list[i]);
        assert(i == 0 ==> before =~= Seq::<char>::empty());
        assert(s@ =~= joined(next, between@));
        i = i + 1;
    }
    assert(all.take(i as int) =~= all);
    s
}

/// The number that a row of digits spells.
pub open spec fn spelled(s: Seq<char>) -> int
    decreases s.len(),
{
    if s.len() == 0 {
        0
    } else {
        spelled(s.drop_last()) * 10 + (s.last() as int - '0' as int)
    }
}

/// A number is written in digits that spell it, without a leading zero.
pub proof fn lemma_dec_nat(n: nat)
    ensures
        dec_nat(n).len() > 0,
        forall|i: int| 0 <= i < dec_nat(n).len() ==> '0' <= #[trigger] dec_nat(n)[i] <= '9',
        spelled(dec_nat(n)) == n,
        n > 0 ==> dec_nat(n)[0] != '0',
        n == 0 ==> dec_nat(n) == seq!['0'],
    decreases n,
{
    let s = dec_nat(n);
    if n < 10 {
        assert(s.drop_last() =~= Seq::empty());
        assert(spelled(s.drop_last()) == 0);
    } else {
        lemma_dec_nat(n / 10);
        assert(s.drop_last() =~= dec_nat(n / 10));
        assert(s.last() == digit((n % 10) as int));
        assert forall|i: int| 0 <= i < s.len() implies '0' <= #[trigger] s[i] <= '9' by {
            if i < s.len() - 1 {
                assert(s[i] == dec_nat(n / 10)[i]);
            }
        }
        assert(s[0] == dec_nat(n / 10)[0]);
    }
}

/// A number below zero is written as its opposite behind a minus sign, any other as it is; two numbers
/// are never written alike.
pub proof fn lemma_dec(n: int, m: int)
    ensures
        n >= 0 ==> spelled(dec(n)) == n && '0' <= dec(n)[0] <= '9',
        n < 0 ==> dec(n) == seq!['-'] + dec(-n),
        dec(n) == dec(m) ==> n == m,
{
    lemma_dec_nat(if n < 0 {
        (-n) as nat
    } else {
        n as nat
    });
    lemma_dec_nat(if m < 0 {
        (-m) as nat
    } else {
        m as nat
    });
    assert(n < 0 ==> dec(n)[0] == '-');
    assert(m < 0 ==> dec(m)[0] == '-');
    if n < 0 {
        assert(dec(n).skip(1) =~= dec_nat((-n) as nat));
    }
    if m < 0 {
        assert(dec(m).skip(1) =~= dec_nat((-m) as nat));
    }
}

/// A text occurs in another where all its characters stand in a row.
pub proof fn lemma_occurs<T>(hay: Seq<T>, needle: Seq<T>)
    ensures
        occurs(hay, needle) <==> exists|a: Seq<T>, b: Seq<T>| hay == #[trigger] ((a + needle) + b),
{
    if occurs(hay, needle) {
        let k = choose|k: int| occurs_at(hay, needle, k);
        let a = hay.take(k);
        let b = hay.skip(k + needle.len());
        assert(hay =~= (a + needle) + b) by {
            assert forall|i: int| 0 <= i < hay.len() implies hay[i] == ((a + needle) + b)[i] by {
                if k <= i < k + needle.len() {
                    assert(hay.subrange(k, k + needle.len())[i - k] == hay[i]);
                }
            }
        }
    }
    if exists|a: Seq<T>, b: Seq<T>| hay == #[trigger] ((a + needle) + b) {
        let (a, b) = choose|a: Seq<T>, b: Seq<T>| hay == #[trigger] ((a + needle) + b);
        assert(hay.subrange(a.len() as int, (a.len() + needle.len()) as int) =~= needle);
        assert(occurs_at(hay, needle, a.len() as int));
    }
}

/// Lower case changes the Latin capitals alone, each to its own small letter, and keeps every place.
pub proof fn lemma_lowered(s: Seq<char>)
    ensures
        lowered(s).len() == s.len(),
        forall|i: int|
            0 <= i < s.len() && 'A' <= s[i] <= 'Z' ==> #[trigger] lowered(s)[i] as int - 'a' as int
                == s[i] as int - 'A' as int,
        forall|i: int|
            0 <= i < s.len() && !('A' <= s[i] <= 'Z') ==> #[trigger] lowered(s)[i] == s[i],
        lowered(lowered(s)) == lowered(s),
{
    assert forall|i: int| 0 <= i < s.len() && 'A' <= s[i] <= 'Z' implies #[trigger] lowered(
        s,
    )[i] as int - 'a' as int == s[i] as int - 'A' as int by {
        assert(lowered(s)[i] == lower_char(s[i]));
    }
    assert(lowered(lowered(s)) =~= lowered(s));
}

/// Parts are joined in their order, with the separator between any two and nowhere else.
pub proof fn lemma_joined(a: Seq<Seq<char>>, b: Seq<Seq<char>>, x: Seq<char>, between: Seq<char>)
    ensures
        joined(Seq::empty(), between).len() == 0,
        joined(seq![x], between) == x,
        a.len() > 0 && b.len() > 0 ==> joined(a + b, between) == joined(a, between) + between + joined(
            b,
            between,
        ),
    decreases b.len(),
{
    if a.len() > 0 && b.len() > 0 {
        let s = a + b;
        assert(s.drop_last() =~= a + b.drop_last());
        assert(s.last() == b.last());
        if b.len() == 1 {
            assert(s.drop_last() =~= a);
            assert(b[0] == b.last());
        } else {
            lemma_joined(a, b.drop_last(), x, between);
            assert(joined(s, between) =~= joined(a, between) + between + joined(b, between));
        }
    }
}

} // verus!
