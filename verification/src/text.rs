//! String pieces: walking a `&str` by characters and by byte offsets.

use vstd::prelude::*;
use vstd::utf8::*;

verus! {

/// Appends one character to a string (`String::push`).
pub assume_specification[ String::push ](s: &mut String, c: char)
    ensures
        final(s)@ == old(s)@.push(c),
;

/// `String::from_utf8`: the text of the bytes, if they are valid UTF-8.
#[verifier::external_body]
pub(crate) fn utf8_text(bytes: Vec<u8>) -> (r: Option<String>)
    ensures
        r is Some <==> valid_utf8(bytes@),
        r matches Some(s) ==> s@ == decode_utf8(bytes@),
{
    String::from_utf8(bytes).ok()
}

/// Number of bytes that a character takes in UTF-8.
pub open spec fn char_bytes(c: char) -> nat {
    encode_scalar(c as u32).len()
}

/// Number of bytes that a character sequence takes in UTF-8.
pub open spec fn byte_len(s: Seq<char>) -> nat {
    encode_utf8(s).len()
}

/// The views of a sequence of strings.
pub open spec fn views(v: Seq<String>) -> Seq<Seq<char>> {
    v.map_values(|s: String| s@)
}

/// All pieces put together in order.
pub open spec fn concat(parts: Seq<Seq<char>>) -> Seq<char>
    decreases parts.len(),
{
    if parts.len() == 0 {
        Seq::empty()
    } else {
        concat(parts.drop_last()) + parts.last()
    }
}

/// All pieces put together in order, `sep` between each two of them.
pub open spec fn join(parts: Seq<Seq<char>>, sep: Seq<char>) -> Seq<char>
    decreases parts.len(),
{
    if parts.len() == 0 {
        Seq::empty()
    } else if parts.len() == 1 {
        parts[0]
    } else {
        join(parts.drop_last(), sep) + sep + parts.last()
    }
}

/// The pieces between the occurrences of `c`; there is always at least one.
pub open spec fn split_on(s: Seq<char>, c: char) -> Seq<Seq<char>>
    decreases s.len(),
{
    if s.len() == 0 {
        seq![Seq::empty()]
    } else {
        let before = split_on(s.drop_last(), c);
        if s.last() == c {
            before.push(Seq::empty())
        } else {
            before.update(before.len() - 1, before.last().push(s.last()))
        }
    }
}

pub proof fn lemma_split_on_nonempty(s: Seq<char>, c: char)
    ensures
        split_on(s, c).len() > 0,
    decreases s.len(),
{
    if s.len() > 0 {
        lemma_split_on_nonempty(s.drop_last(), c);
    }
}

/// No piece holds the character that was split on.
pub proof fn lemma_split_pieces(s: Seq<char>, c: char)
    ensures
        forall|i: int| 0 <= i < split_on(s, c).len() ==> !(#[trigger] split_on(s, c)[i]).contains(c),
    decreases s.len(),
{
    lemma_split_on_nonempty(s, c);
    if s.len() > 0 {
        let before = split_on(s.drop_last(), c);
        lemma_split_on_nonempty(s.drop_last(), c);
        lemma_split_pieces(s.drop_last(), c);
        assert forall|i: int| 0 <= i < split_on(s, c).len() implies !(#[trigger] split_on(s, c)[i]).contains(c) by {
            if s.last() != c && i == before.len() - 1 {
                let piece = split_on(s, c)[i];
                assert forall|k: int| 0 <= k < piece.len() implies piece[k] != c by {
                    if k < before[i].len() {
                        assert(piece[k] == before[i][k]);
                        assert(!before[i].contains(c));
                    }
                }
            } else if i < before.len() {
                assert(split_on(s, c)[i] == before[i]);
            }
        }
    }
}

proof fn lemma_split_append(s: Seq<char>, t: Seq<char>, c: char)
    requires
        !t.contains(c),
    ensures
        split_on(s.push(c) + t, c) == split_on(s, c).push(t),
    decreases t.len(),
{
    let all = s.push(c) + t;
    lemma_split_on_nonempty(s, c);
    if t.len() == 0 {
        assert(t =~= Seq::empty());
        assert(all =~= s.push(c));
        assert(s.push(c).drop_last() =~= s);
        assert(split_on(all, c) =~= split_on(s, c).push(t));
    } else {
        let d = t.drop_last();
        assert forall|k: int| 0 <= k < d.len() implies d[k] != c by {
            assert(t[k] == d[k]);
        }
        lemma_split_append(s, d, c);
        assert(all.drop_last() =~= s.push(c) + d);
        assert(all.last() == t.last());
        assert(t.contains(t.last()));
        assert(d.push(t.last()) =~= t);
        assert(split_on(all, c) =~= split_on(s, c).push(t));
    }
}

proof fn lemma_split_whole(t: Seq<char>, c: char)
    requires
        !t.contains(c),
    ensures
        split_on(t, c) == seq![t],
    decreases t.len(),
{
    if t.len() == 0 {
        assert(t =~= Seq::empty());
    } else {
        let d = t.drop_last();
        assert forall|k: int| 0 <= k < d.len() implies d[k] != c by {
            assert(t[k] == d[k]);
        }
        lemma_split_whole(d, c);
        assert(t.contains(t.last()));
        assert(d.push(t.last()) =~= t);
        assert(split_on(t, c) =~= seq![t]);
    }
}

/// Splitting undoes joining: pieces that do not hold the separator are got back as they were.
pub proof fn split_undoes_join(parts: Seq<Seq<char>>, c: char)
    requires
        parts.len() > 0,
        forall|i: int| 0 <= i < parts.len() ==> !(#[trigger] parts[i]).contains(c),
    ensures
        split_on(join(parts, seq![c]), c) == parts,
    decreases parts.len(),
{
    if parts.len() == 1 {
        lemma_split_whole(parts[0], c);
        assert(seq![parts[0]] =~= parts);
    } else {
        let d = parts.drop_last();
        split_undoes_join(d, c);
        let s = join(d, seq![c]);
        assert(s + seq![c] + parts.last() =~= s.push(c) + parts.last());
        lemma_split_append(s, parts.last(), c);
        assert(d.push(parts.last()) =~= parts);
    }
}

/// What holds no separator is one piece.
pub proof fn a_piece_stays_whole(t: Seq<char>, c: char)
    requires
        !t.contains(c),
    ensures
        split_on(t, c) == seq![t],
{
    lemma_split_whole(t, c);
}

/// A separator separates: the pieces of two texts with a separator between them are those of the first
/// and then those of the second.
pub proof fn separators_separate(a: Seq<char>, c: char, b: Seq<char>)
    ensures
        split_on(a.push(c) + b, c) == split_on(a, c) + split_on(b, c),
    decreases b.len(),
{
    lemma_split_on_nonempty(a, c);
    lemma_split_on_nonempty(b, c);
    if b.len() == 0 {
        assert(a.push(c) + b =~= a.push(c));
        assert(a.push(c).drop_last() =~= a);
        assert(split_on(a, c).push(Seq::empty()) =~= split_on(a, c) + split_on(b, c));
    } else {
        let d = b.drop_last();
        separators_separate(a, c, d);
        lemma_split_on_nonempty(d, c);
        assert((a.push(c) + b).drop_last() =~= a.push(c) + d);
        assert((a.push(c) + b).last() == b.last());
        assert(split_on(a.push(c) + b, c) =~= split_on(a, c) + split_on(b, c));
    }
}

/// The encoding of a concatenation is the concatenation of the encodings.
pub proof fn lemma_encode_concat(a: Seq<char>, b: Seq<char>)
    ensures
        encode_utf8(a + b) == encode_utf8(a) + encode_utf8(b),
        byte_len(a + b) == byte_len(a) + byte_len(b),
    decreases a.len(),
{
    if a.len() == 0 {
        assert(a + b =~= b);
    } else {
        lemma_encode_concat(a.drop_first(), b);
        assert((a + b).drop_first() =~= a.drop_first() + b);
        assert(encode_utf8(a + b) =~= encode_utf8(a) + encode_utf8(b));
    }
}

/// Two texts with the same encoding are the same text.
pub proof fn lemma_encode_injective(a: Seq<char>, b: Seq<char>)
    requires
        encode_utf8(a) == encode_utf8(b),
    ensures
        a == b,
{
    encode_utf8_decode_utf8(a);
    encode_utf8_decode_utf8(b);
}

/// The end of a prefix is a character boundary.
proof fn lemma_prefix_boundary(a: Seq<char>, b: Seq<char>)
    ensures
        is_char_boundary(encode_utf8(a + b), byte_len(a) as int),
    decreases a.len(),
{
    let bytes = encode_utf8(a + b);
    encode_utf8_valid_utf8(a + b);
    lemma_encode_concat(a, b);
    if a.len() == 0 {
    } else {
        let rest = a.drop_first();
        assert((a + b).drop_first() =~= rest + b);
        encode_utf8_first_scalar(a + b);
        assert(pop_first_scalar(bytes) =~= encode_utf8(rest + b));
        lemma_prefix_boundary(rest, b);
        assert(byte_len(a) == char_bytes(a[0]) + byte_len(rest));
    }
}

/// A text of one character takes that character's bytes.
pub proof fn lemma_one_char(c: char)
    ensures
        byte_len(seq![c]) == char_bytes(c),
        1 <= char_bytes(c) <= 4,
{
    assert(seq![c].drop_first() =~= Seq::<char>::empty());
    assert(encode_utf8(Seq::<char>::empty()) =~= Seq::<u8>::empty());
    assert(encode_utf8(seq![c]) =~= encode_scalar(c as u32));
}

/// A text has at least as many bytes as characters.
pub proof fn lemma_byte_len_at_least(s: Seq<char>)
    ensures
        s.len() <= byte_len(s),
    decreases s.len(),
{
    if s.len() > 0 {
        lemma_byte_len_at_least(s.drop_first());
        lemma_one_char(s[0]);
    }
}

/// Splits `s` behind its prefix `head`, whose length in bytes is `mid`.
fn split_prefix<'a>(s: &'a str, mid: usize, head: Ghost<Seq<char>>) -> (r: (&'a str, &'a str))
    requires
        head@.len() <= s@.len(),
        head@ == s@.take(head@.len() as int),
        mid == byte_len(head@),
    ensures
        r.0@ == head@,
        r.1@ == s@.skip(head@.len() as int),
{
    let ghost tail = s@.skip(head@.len() as int);
    proof {
        assert(s@ =~= head@ + tail);
        lemma_prefix_boundary(head@, tail);
        lemma_encode_concat(head@, tail);
    }
    let r = s.split_at(mid);
    proof {
        assert(encode_utf8(r.0@) =~= encode_utf8(head@));
        assert(encode_utf8(r.1@) =~= encode_utf8(tail));
        lemma_encode_injective(r.0@, head@);
        lemma_encode_injective(r.1@, tail);
    }
    r
}

/// The length of a string in bytes.
pub fn len_of(s: &str) -> (n: usize)
    ensures
        n == byte_len(s@),
{
    s.as_bytes().len()
}

/// Number of bytes of one character in UTF-8.
pub fn char_len(c: char) -> (n: usize)
    ensures
        n == char_bytes(c),
        1 <= n <= 4,
{
    let v: u32 = c as u32;
    if v <= 0x7f {
        1
    } else if v <= 0x7ff {
        2
    } else if v <= 0xffff {
        3
    } else {
        4
    }
}

/// Splits off the prefix `head` of `s`.
pub fn split_head<'a>(s: &'a str, head: &str) -> (r: (&'a str, &'a str))
    requires
        head@.len() <= s@.len(),
        head@ == s@.take(head@.len() as int),
    ensures
        r.0@ == head@,
        r.1@ == s@.skip(head@.len() as int),
{
    split_prefix(s, len_of(head), Ghost(head@))
}

/// Splits off the first character.
pub fn split_first<'a>(s: &'a str) -> (r: Option<(char, &'a str, &'a str)>)
    ensures
        r is None <==> s@.len() == 0,
        r matches Some((c, head, tail)) ==> {
            &&& c == s@[0]
            &&& head@ == seq![c]
            &&& tail@ == s@.drop_first()
        },
{
    if s.is_empty() {
        return None;
    }
    let c = s.get_char(0);
    proof {
        lemma_one_char(c);
        assert(s@.take(1) =~= seq![c]);
        assert(s@.skip(1) =~= s@.drop_first());
    }
    let ghost one = seq![c];
    let (head, tail) = split_prefix(s, char_len(c), Ghost(one));
    Some((c, head, tail))
}

/// Splits `s` behind its first `n` characters.
pub fn split_chars<'a>(s: &'a str, n: usize) -> (r: (&'a str, &'a str))
    requires
        n <= s@.len(),
    ensures
        r.0@ == s@.take(n as int),
        r.1@ == s@.skip(n as int),
{
    let mut mid: usize = 0;
    let mut cur: &'a str = s;
    let mut i: usize = 0;
    let total: usize = len_of(s);
    proof {
        assert(encode_utf8(Seq::<char>::empty()) =~= Seq::<u8>::empty());
        assert(s@.take(0) =~= Seq::<char>::empty());
        assert(s@.skip(0) =~= s@);
    }
    while i < n
        invariant
            i <= n <= s@.len(),
            cur@ == s@.skip(i as int),
            mid == byte_len(s@.take(i as int)),
            total == byte_len(s@),
        decreases n - i,
    {
        let c = cur.get_char(0);
        proof {
            lemma_one_char(c);
            assert(s@.take(i as int + 1) =~= s@.take(i as int) + seq![c]);
            assert(s@ =~= s@.take(i as int + 1) + s@.skip(i as int + 1));
            lemma_encode_concat(s@.take(i as int), seq![c]);
            lemma_encode_concat(s@.take(i as int + 1), s@.skip(i as int + 1));
            assert(cur@.skip(1) =~= s@.skip(i as int + 1));
            assert(cur@.take(1) =~= seq![c]);
        }
        let w: usize = char_len(c);
        let ghost one = seq![c];
        let parts = split_prefix(cur, w, Ghost(one));
        cur = parts.1;
        mid = mid + w;
        i = i + 1;
    }
    split_prefix(s, mid, Ghost(s@.take(n as int)))
}

/// The characters of a string.
pub fn chars_of(s: &str) -> (v: Vec<char>)
    ensures
        v@ == s@,
{
    let mut v: Vec<char> = Vec::new();
    let mut cur = s;
    proof {
        assert(s@.skip(0) =~= s@);
    }
    loop
        invariant
            v@.len() <= s@.len(),
            v@ == s@.take(v@.len() as int),
            cur@ == s@.skip(v@.len() as int),
        ensures
            v@ == s@,
        decreases cur@.len(),
    {
        match split_first(cur) {
            None => {
                assert(v@ =~= s@);
                break;
            },
            Some((c, _head, tail)) => {
                let ghost n = v@.len() as int;
                v.push(c);
                cur = tail;
                assert(v@ =~= s@.take(n + 1));
                assert(cur@ =~= s@.skip(n + 1));
            },
        }
    }
    v
}

/// The string made of the given characters.
pub fn string_of(v: &Vec<char>) -> (s: String)
    ensures
        s@ == v@,
{
    substring(v, 0, v.len())
}

/// The string made of the characters `from..to`.
pub fn substring(v: &Vec<char>, from: usize, to: usize) -> (s: String)
    requires
        from <= to <= v@.len(),
    ensures
        s@ == v@.subrange(from as int, to as int),
{
    let mut s = String::new();
    let mut i: usize = from;
    while i < to
        invariant
            from <= i <= to <= v@.len(),
            s@ == v@.subrange(from as int, i as int),
        decreases to - i,
    {
        s.push(v[i]);
        assert(v@.subrange(from as int, i as int + 1) =~= v@.subrange(from as int, i as int).push(v@[i as int]));
        i = i + 1;
    }
    s
}

/// A copy of a list of strings.
pub fn copy_strings(v: &Vec<String>) -> (r: Vec<String>)
    ensures
        views(r@) == views(v@),
{
    let mut r: Vec<String> = Vec::new();
    let mut i: usize = 0;
    while i < v.len()
        invariant
            i <= v.len(),
            r@.len() == i,
            forall|k: int| 0 <= k < i ==> (#[trigger] r@[k])@ == v@[k]@,
        decreases v.len() - i,
    {
        r.push(v[i].clone());
        i = i + 1;
    }
    assert(views(r@) =~= views(v@));
    r
}

/// Puts all the strings together.
pub fn concat_strings(v: &Vec<String>) -> (r: String)
    ensures
        r@ == concat(views(v@)),
{
    let mut r = String::new();
    let mut i: usize = 0;
    assert(views(v@).take(0) =~= Seq::empty());
    while i < v.len()
        invariant
            i <= v.len(),
            r@ == concat(views(v@).take(i as int)),
        decreases v.len() - i,
    {
        proof {
            let t = views(v@).take(i as int + 1);
            assert(t.drop_last() =~= views(v@).take(i as int));
            assert(t.last() == v@[i as int]@);
        }
        r.append(v[i].as_str());
        i = i + 1;
    }
    assert(views(v@).take(i as int) =~= views(v@));
    r
}

/// Puts all the strings together, `sep` between each two of them.
pub fn join_strings(v: &Vec<String>, sep: &str) -> (r: String)
    ensures
        r@ == join(views(v@), sep@),
{
    let mut r = String::new();
    let mut i: usize = 0;
    assert(views(v@).take(0) =~= Seq::empty());
    while i < v.len()
        invariant
            i <= v.len(),
            r@ == join(views(v@).take(i as int), sep@),
        decreases v.len() - i,
    {
        proof {
            let t = views(v@).take(i as int + 1);
            assert(t.drop_last() =~= views(v@).take(i as int));
            assert(t.last() == v@[i as int]@);
            assert(Seq::<char>::empty() + v@[i as int]@ =~= v@[i as int]@);
        }
        if i > 0 {
            r.append(sep);
        }
        r.append(v[i].as_str());
        i = i + 1;
    }
    assert(views(v@).take(i as int) =~= views(v@));
    r
}

/// The pieces of `s` between the occurrences of `c`.
pub fn split_at_char(s: &str, c: char) -> (r: Vec<String>)
    ensures
        views(r@) == split_on(s@, c),
{
    let chars = chars_of(s);
    let mut done: Vec<String> = Vec::new();
    let mut cur = String::new();
    let mut i: usize = 0;
    proof {
        assert(s@.take(0) =~= Seq::empty());
        assert(views(done@).push(cur@) =~= seq![Seq::empty()]);
    }
    while i < chars.len()
        invariant
            chars@ == s@,
            i <= chars@.len(),
            split_on(s@.take(i as int), c) == views(done@).push(cur@),
        decreases chars.len() - i,
    {
        let ghost prefix = s@.take(i as int + 1);
        proof {
            assert(prefix.drop_last() =~= s@.take(i as int));
            assert(prefix.last() == s@[i as int]);
        }
        if chars[i] == c {
            let ghost before = views(done@).push(cur@);
            done.push(cur);
            cur = String::new();
            assert(views(done@).push(cur@) =~= before.push(Seq::empty()));
        } else {
            let ghost before = views(done@).push(cur@);
            cur.push(chars[i]);
            assert(views(done@).push(cur@) =~= before.update(before.len() - 1, before.last().push(s@[i as int])));
        }
        i = i + 1;
    }
    assert(s@.take(i as int) =~= s@);
    done.push(cur);
    assert(views(done@) =~= split_on(s@, c));
    done
}

/// Do the two strings hold the same text?
pub fn same(a: &str, b: &str) -> (r: bool)
    ensures
        r == (a@ == b@),
{
    let x = chars_of(a);
    let y = chars_of(b);
    if x.len() != y.len() {
        return false;
    }
    let mut i: usize = 0;
    while i < x.len()
        invariant
            x@ == a@,
            y@ == b@,
            x@.len() == y@.len(),
            i <= x@.len(),
            forall|k: int| 0 <= k < i ==> x@[k] == y@[k],
        decreases x.len() - i,
    {
        if x[i] != y[i] {
            return false;
        }
        i = i + 1;
    }
    assert(a@ =~= b@);
    true
}

} // verus!
