//! Comparing text.

use vstd::prelude::*;

use vstd::string::{*, StrSliceExecFns};
use vstd::utf8::*;

verus! {

/// Whether byte sequence `a` comes strictly before `b` in dictionary order.
pub open spec fn bytes_before(a: Seq<u8>, b: Seq<u8>) -> bool
    decreases a.len(),
{
    if b.len() == 0 {
        false
    } else if a.len() == 0 {
        true
    } else if a[0] == b[0] {
        bytes_before(a.skip(1), b.skip(1))
    } else {
        a[0] < b[0]
    }
}

/// Whether text `a` sorts strictly before text `b`: dictionary order on the UTF-8 bytes.
pub open spec fn text_before(a: Seq<char>, b: Seq<char>) -> bool {
    bytes_before(encode_utf8(a), encode_utf8(b))
}

/// Dictionary order is a strict total order.
pub proof fn lemma_bytes_before(a: Seq<u8>, b: Seq<u8>, c: Seq<u8>)
    ensures
        !bytes_before(a, a),
        bytes_before(a, b) ==> !bytes_before(b, a),
        bytes_before(a, b) && bytes_before(b, c) ==> bytes_before(a, c),
        a == b || bytes_before(a, b) || bytes_before(b, a),
    decreases a.len() + b.len() + c.len(),
{
    if a.len() > 0 && b.len() > 0 && c.len() > 0 {
        lemma_bytes_before(a.skip(1), b.skip(1), c.skip(1));
    } else if a.len() > 0 && b.len() > 0 {
        lemma_bytes_before(a.skip(1), b.skip(1), c);
    } else if a.len() > 0 {
        lemma_bytes_before(a.skip(1), b, c);
    }
    if a.len() > 0 && b.len() > 0 && a[0] == b[0] && a.skip(1) == b.skip(1) {
        assert(a =~= seq![a[0]] + a.skip(1));
        assert(b =~= seq![b[0]] + b.skip(1));
    }
    if a.len() == 0 && b.len() == 0 {
        assert(a =~= b);
    }
}

/// Text order is a strict total order.
pub proof fn lemma_text_before(a: Seq<char>, b: Seq<char>, c: Seq<char>)
    ensures
        !text_before(a, a),
        text_before(a, b) ==> !text_before(b, a),
        text_before(a, b) && text_before(b, c) ==> text_before(a, c),
        a == b || text_before(a, b) || text_before(b, a),
{
    lemma_bytes_before(encode_utf8(a), encode_utf8(b), encode_utf8(c));
    if encode_utf8(a) == encode_utf8(b) {
        encode_utf8_decode_utf8(a);
        encode_utf8_decode_utf8(b);
    }
}

/// Whether two texts are the same.
pub fn same(a: &str, b: &str) -> (r: bool)
    ensures
        r == (a@ == b@),
{
    let x = a.as_bytes();
    let y = b.as_bytes();
    if x.len() != y.len() {
        return false;
    }
    let n: usize = x.len();
    let mut i: usize = 0;
    while i < n
        invariant
            i <= n,
            n == x@.len(),
            n == y@.len(),
            x@ == a.spec_bytes(),
            y@ == b.spec_bytes(),
            forall|j: int| 0 <= j < i ==> x@[j] == y@[j],
        decreases n - i,
    {
        if x[i] != y[i] {
            return false;
        }
        i = i + 1;
    }
    proof {
        assert(x@ =~= y@);
        encode_utf8_decode_utf8(a@);
        encode_utf8_decode_utf8(b@);
    }
    true
}

/// Whether `a` sorts strictly before `b`.
pub fn before(a: &str, b: &str) -> (r: bool)
    ensures
        r == text_before(a@, b@),
{
    let x = a.as_bytes();
    let y = b.as_bytes();
    let mut i: usize = 0;
    proof {
        assert(x@.skip(0) =~= x@);
        assert(y@.skip(0) =~= y@);
    }
    while i < x.len() && i < y.len()
        invariant
            x@ == a.spec_bytes(),
            y@ == b.spec_bytes(),
            i <= x@.len(),
            i <= y@.len(),
            bytes_before(x@, y@) == bytes_before(x@.skip(i as int), y@.skip(i as int)),
        decreases x@.len() - i,
    {
        if x[i] != y[i] {
            return x[i] < y[i];
        }
        proof {
            assert(x@.skip(i as int).skip(1) =~= x@.skip(i + 1));
            assert(y@.skip(i as int).skip(1) =~= y@.skip(i + 1));
        }
        i = i + 1;
    }
    i < y.len()
}

/// The view of optional text.
pub open spec fn opt_text(o: Option<String>) -> Option<Seq<char>> {
    match o {
        Some(s) => Some(s@),
        None => None,
    }
}

/// The view of an optional text slice.
pub open spec fn opt_str(o: Option<&str>) -> Option<Seq<char>> {
    match o {
        Some(s) => Some(s@),
        None => None,
    }
}

/// The view of an optional number.
pub open spec fn opt_int(o: Option<i64>) -> Option<int> {
    match o {
        Some(n) => Some(n as int),
        None => None,
    }
}

/// The view of a list of named quantities.
pub open spec fn pairs_view(v: Seq<(String, i64)>) -> Seq<(Seq<char>, int)> {
    Seq::new(v.len(), |i: int| (v[i].0@, v[i].1 as int))
}

/// The view of optional bytes.
pub open spec fn opt_bytes(o: Option<Vec<u8>>) -> Option<Seq<u8>> {
    match o {
        Some(v) => Some(v@),
        None => None,
    }
}

pub fn copy_opt_bytes(o: &Option<Vec<u8>>) -> (r: Option<Vec<u8>>)
    ensures
        opt_bytes(r) == opt_bytes(*o),
{
    match o {
        Some(v) => {
            let mut r: Vec<u8> = Vec::new();
            let mut i: usize = 0;
            while i < v.len()
                invariant
                    i <= v.len(),
                    r@ == v@.take(i as int),
                decreases v.len() - i,
            {
                r.push(v[i]);
                assert(r@ =~= v@.take(i + 1));
                i = i + 1;
            }
            assert(r@ =~= v@);
            Some(r)
        },
        None => None,
    }
}

pub fn copy_opt_text(o: &Option<String>) -> (r: Option<String>)
    ensures
        r == *o,
{
    match o {
        Some(s) => Some(s.clone()),
        None => None,
    }
}

pub fn own_opt(o: Option<&str>) -> (r: Option<String>)
    ensures
        opt_text(r) == opt_str(o),
{
    match o {
        Some(s) => Some(s.to_string()),
        None => None,
    }
}

pub fn copy_pairs(v: &Vec<(String, i64)>) -> (r: Vec<(String, i64)>)
    ensures
        r@ == v@,
{
    let mut r: Vec<(String, i64)> = Vec::new();
    let mut i: usize = 0;
    while i < v.len()
        invariant
            i <= v.len(),
            r@ == v@.take(i as int),
        decreases v.len() - i,
    {
        let s = v[i].0.clone();
        r.push((s, v[i].1));
        assert(r@ =~= v@.take(i + 1));
        i = i + 1;
    }
    assert(v@.take(i as int) =~= v@);
    r
}

/// The characters of a text.
pub fn chars_of(text: &str) -> (v: Vec<char>)
    ensures
        v@ == text@,
{
    let n: usize = text.unicode_len();
    let mut v: Vec<char> = Vec::new();
    let mut i: usize = 0;
    while i < n
        invariant
            i <= n,
            n == text@.len(),
            v@ == text@.take(i as int),
        decreases n - i,
    {
        v.push(text.get_char(i));
        assert(v@ =~= text@.take(i + 1));
        i = i + 1;
    }
    assert(text@.take(i as int) =~= text@);
    v
}

/// Whether a character is white space.
pub open spec fn is_space(c: char) -> bool {
    let n = c as int;
    ||| 9 <= n <= 13
    ||| n == 0x20
    ||| n == 0x85
    ||| n == 0xA0
    ||| n == 0x1680
    ||| 0x2000 <= n <= 0x200A
    ||| n == 0x2028
    ||| n == 0x2029
    ||| n == 0x202F
    ||| n == 0x205F
    ||| n == 0x3000
}

fn space(c: char) -> (yes: bool)
    ensures
        yes == is_space(c),
{
    let n: u32 = c as u32;
    (9 <= n && n <= 13) || n == 0x20 || n == 0x85 || n == 0xA0 || n == 0x1680 || (0x2000 <= n && n <= 0x200A) || n
        == 0x2028 || n == 0x2029 || n == 0x202F || n == 0x205F || n == 0x3000
}

/// The words of a text that have ended, and what is read of the next one.
pub open spec fn reading(s: Seq<char>) -> (Seq<Seq<char>>, Seq<char>)
    decreases s.len(),
{
    if s.len() == 0 {
        (Seq::empty(), Seq::empty())
    } else {
        let (words, word) = reading(s.drop_last());
        if !is_space(s.last()) {
            (words, word.push(s.last()))
        } else if word.len() > 0 {
            (words.push(word), Seq::empty())
        } else {
            (words, word)
        }
    }
}

/// The words of a text: what stands between white space.
pub open spec fn words(s: Seq<char>) -> Seq<Seq<char>> {
    let (words, word) = reading(s);
    if word.len() > 0 {
        words.push(word)
    } else {
        words
    }
}

/// The views of a list of texts.
pub open spec fn strs_view(v: Seq<&str>) -> Seq<Seq<char>> {
    Seq::new(v.len(), |i: int| v[i]@)
}

/// Split a text at its white space.
pub fn split_words<'a>(text: &'a str) -> (out: Vec<&'a str>)
    ensures
        strs_view(out@) == words(text@),
{
    let ghost s = text@;
    let n: usize = text.unicode_len();
    let mut out: Vec<&'a str> = Vec::new();
    let mut start: usize = 0;
    let mut i: usize = 0;
    assert(s.take(0) =~= Seq::empty());
    assert(strs_view(out@) =~= reading(s.take(0)).0);
    assert(s.subrange(0, 0) =~= Seq::empty());
    while i < n
        invariant
            start <= i <= n,
            s == text@,
            n == s.len(),
            strs_view(out@) == reading(s.take(i as int)).0,
            s.subrange(start as int, i as int) == reading(s.take(i as int)).1,
        decreases n - i,
    {
        let c: char = text.get_char(i);
        let ghost was = out@;
        proof {
            assert(s.take(i + 1).drop_last() =~= s.take(i as int));
            assert(s.take(i + 1).last() == c);
            assert(s.subrange(start as int, i + 1) =~= s.subrange(start as int, i as int).push(c));
        }
        if space(c) {
            if start < i {
                let word = text.substring_char(start, i);
                out.push(word);
                assert(strs_view(out@) =~= strs_view(was).push(word@));
            }
            start = i + 1;
            assert(s.subrange(i + 1, i + 1) =~= Seq::empty());
        }
        i = i + 1;
    }
    assert(s.take(i as int) =~= s);
    if start < n {
        let ghost was = out@;
        let word = text.substring_char(start, n);
        out.push(word);
        assert(strs_view(out@) =~= strs_view(was).push(word@));
    }
    out
}

/// Every word has something in it, and no white space.
pub proof fn law_words_hold_no_space(s: Seq<char>)
    ensures
        forall|i: int| 0 <= i < words(s).len() ==> (#[trigger] words(s)[i]).len() > 0,
        forall|i: int, j: int|
            0 <= i < words(s).len() && 0 <= j < words(s)[i].len() ==> !is_space(#[trigger] words(s)[i][j]),
{
    lemma_reading(s);
    let (done, word) = reading(s);
    assert forall|i: int, j: int| 0 <= i < words(s).len() && 0 <= j < words(s)[i].len() implies !is_space(
        #[trigger] words(s)[i][j],
    ) by {
        if i < done.len() {
            assert(words(s)[i] == done[i]);
            assert(!is_space(done[i][j]));
        } else {
            assert(!is_space(word[j]));
        }
    }
}

/// White space parts words and nothing else does: what stands before one and what stands behind it are read apart, and a
/// text without any is one word.
pub proof fn law_space_parts_words(a: Seq<char>, c: char, b: Seq<char>)
    ensures
        is_space(c) ==> words(a + seq![c] + b) == words(a) + words(b),
        b.len() > 0 && (forall|i: int| 0 <= i < b.len() ==> !is_space(#[trigger] b[i])) ==> words(b) == seq![b],
{
    if is_space(c) {
        lemma_reading_apart(a, c, b);
        assert(words(a + seq![c] + b) =~= words(a) + words(b));
    }
    if forall|i: int| 0 <= i < b.len() ==> !is_space(#[trigger] b[i]) {
        lemma_reading_one(b);
        if b.len() > 0 {
            assert(words(b) =~= seq![b]);
        }
    }
}

proof fn lemma_reading_apart(a: Seq<char>, c: char, b: Seq<char>)
    requires
        is_space(c),
    ensures
        reading(a + seq![c] + b).0 == words(a) + reading(b).0,
        reading(a + seq![c] + b).1 == reading(b).1,
    decreases b.len(),
{
    let all = a + seq![c] + b;
    if b.len() == 0 {
        assert(all =~= a.push(c));
        assert(all.drop_last() =~= a);
        assert(words(a) + reading(b).0 =~= words(a));
    } else {
        let head = b.drop_last();
        lemma_reading_apart(a, c, head);
        assert(all.drop_last() =~= a + seq![c] + head);
        assert(all.last() == b.last());
        assert(reading(all).0 =~= words(a) + reading(b).0);
    }
}

proof fn lemma_reading_one(b: Seq<char>)
    requires
        forall|i: int| 0 <= i < b.len() ==> !is_space(#[trigger] b[i]),
    ensures
        reading(b).0.len() == 0,
        reading(b).1 == b,
    decreases b.len(),
{
    if b.len() > 0 {
        let head = b.drop_last();
        assert forall|i: int| 0 <= i < head.len() implies !is_space(#[trigger] head[i]) by {
            assert(head[i] == b[i]);
        }
        lemma_reading_one(head);
        assert(b.last() == b[b.len() - 1]);
        assert(head.push(b.last()) =~= b);
    } else {
        assert(reading(b).1 =~= b);
    }
}

proof fn lemma_reading(s: Seq<char>)
    ensures
        forall|i: int| 0 <= i < reading(s).0.len() ==> (#[trigger] reading(s).0[i]).len() > 0,
        forall|i: int, j: int|
            0 <= i < reading(s).0.len() && 0 <= j < reading(s).0[i].len() ==> !is_space(
                #[trigger] reading(s).0[i][j],
            ),
        forall|j: int| 0 <= j < reading(s).1.len() ==> !is_space(#[trigger] reading(s).1[j]),
    decreases s.len(),
{
    if s.len() > 0 {
        lemma_reading(s.drop_last());
        let (before, word) = reading(s.drop_last());
        let after = reading(s).0;
        assert forall|i: int| 0 <= i < after.len() implies (#[trigger] after[i]).len() > 0 by {
            if i < before.len() {
                assert(after[i] == before[i]);
            }
        }
        assert forall|i: int, j: int| 0 <= i < after.len() && 0 <= j < after[i].len() implies !is_space(
            #[trigger] after[i][j],
        ) by {
            if i < before.len() {
                assert(after[i] == before[i]);
                assert(!is_space(before[i][j]));
            } else {
                assert(!is_space(word[j]));
            }
        }
    }
}

} // verus!
