//! Finding inventory items whose names resemble a given name.
use vstd::prelude::*;
use vstd::string::StringExecFns;
use crate::alerts::{ItemView, StockItem, item_views};
use crate::support::{lower_of, lowercase};
use crate::text::{chars_of, is_space, is_space_char};

verus! {

/// The words of `s`: its maximal runs of non-space characters, in order.
pub open spec fn words(s: Seq<char>) -> Seq<Seq<char>>
    decreases s.len(),
{
    if s.len() == 0 {
        Seq::empty()
    } else {
        let w = words(s.drop_last());
        let c = s.last();
        if is_space(c) {
            w
        } else if s.len() >= 2 && !is_space(s[s.len() - 2]) {
            w.drop_last().push(w.last().push(c))
        } else {
            w.push(seq![c])
        }
    }
}

/// Number of bytes of `c` in UTF-8.
pub open spec fn utf8_width(c: char) -> nat {
    if (c as u32) < 0x80 {
        1
    } else if (c as u32) < 0x800 {
        2
    } else if (c as u32) < 0x10000 {
        3
    } else {
        4
    }
}

/// Number of bytes of `s` in UTF-8.
pub open spec fn utf8_len(s: Seq<char>) -> nat
    decreases s.len(),
{
    if s.len() == 0 {
        0
    } else {
        utf8_len(s.drop_last()) + utf8_width(s.last())
    }
}

/// How many words of `mine`, counted with repetition, are longer than three
/// bytes and occur among `theirs`.
pub open spec fn shared_long_words(mine: Seq<Seq<char>>, theirs: Seq<Seq<char>>) -> nat
    decreases mine.len(),
{
    if mine.len() == 0 {
        0
    } else {
        let w = mine.last();
        shared_long_words(mine.drop_last(), theirs) + if utf8_len(w) > 3 && theirs.contains(w) {
            1nat
        } else {
            0nat
        }
    }
}

/// `p` occurs in `s` as a contiguous part.
pub open spec fn has_infix(s: Seq<char>, p: Seq<char>) -> bool {
    exists|i: int| 0 <= i <= s.len() - p.len() && #[trigger] s.subrange(i, i + p.len()) == p
}

/// Two lowercase names look alike: they share a long word, and either one
/// holds the other or they share at least two long words.
pub open spec fn alike(name: Seq<char>, other: Seq<char>) -> bool {
    let shared = shared_long_words(words(name), words(other));
    shared > 0 && (has_infix(other, name) || has_infix(name, other) || shared >= 2)
}

/// How a similar item is listed.
pub open spec fn listing(item: ItemView) -> Seq<char> {
    item.name + " (SKU: "@ + item.sku + ")"@
}

/// The listings of the items of `items` whose names look like `name`, both
/// compared in lowercase.
pub open spec fn similar_listings(name: Seq<char>, items: Seq<ItemView>) -> Seq<Seq<char>>
    decreases items.len(),
{
    if items.len() == 0 {
        Seq::empty()
    } else {
        let prev = similar_listings(name, items.drop_last());
        let it = items.last();
        if alike(lower_of(name), lower_of(it.name)) {
            prev.push(listing(it))
        } else {
            prev
        }
    }
}

/// The views of a sequence of character vectors.
pub open spec fn char_views(s: Seq<Vec<char>>) -> Seq<Seq<char>> {
    s.map_values(|w: Vec<char>| w@)
}

/// The views of a sequence of strings.
pub open spec fn string_views(s: Seq<String>) -> Seq<Seq<char>> {
    s.map_values(|w: String| w@)
}

fn split_words(s: &Vec<char>) -> (r: Vec<Vec<char>>)
    ensures
        char_views(r@) == words(s@),
{
    let mut r: Vec<Vec<char>> = Vec::new();
    let mut i: usize = 0;
    let mut in_word = false;
    assert(char_views(r@) =~= words(s@.take(0)));
    while i < s.len()
        invariant
            i <= s@.len(),
            char_views(r@) == words(s@.take(i as int)),
            in_word == (i > 0 && !is_space(s@[i - 1])),
            in_word ==> r@.len() > 0,
        decreases s@.len() - i,
    {
        let c = s[i];
        let ghost t = s@.take(i + 1);
        assert(t.drop_last() =~= s@.take(i as int));
        assert(t.last() == c);
        if is_space_char(c) {
            in_word = false;
        } else if in_word {
            let last = r.len() - 1;
            let ghost before = r@;
            r[last].push(c);
            proof {
                assert(t[t.len() - 2] == s@[i - 1]);
                assert(char_views(r@) =~= char_views(before).drop_last().push(char_views(before).last().push(c)));
            }
        } else {
            let mut w: Vec<char> = Vec::new();
            w.push(c);
            let ghost before = r@;
            r.push(w);
            proof {
                if i >= 1 {
                    assert(t[t.len() - 2] == s@[i - 1]);
                }
                assert(w@ =~= seq![c]);
                assert(char_views(r@) =~= char_views(before).push(seq![c]));
            }
            in_word = true;
        }
        i += 1;
    }
    assert(s@.take(i as int) =~= s@);
    r
}

fn is_long(w: &Vec<char>) -> (r: bool)
    ensures
        r == (utf8_len(w@) > 3),
{
    let mut bytes: usize = 0;
    let mut i: usize = 0;
    while i < w.len()
        invariant
            i <= w@.len(),
            bytes == utf8_len(w@.take(i as int)),
            bytes <= 3,
        decreases w@.len() - i,
    {
        let c = w[i];
        let code = c as u32;
        let width: usize = if code < 0x80 {
            1
        } else if code < 0x800 {
            2
        } else if code < 0x10000 {
            3
        } else {
            4
        };
        assert(w@.take(i + 1).drop_last() =~= w@.take(i as int));
        assert(w@.take(i + 1).last() == c);
        bytes = bytes + width;
        if bytes > 3 {
            proof {
                lemma_utf8_len_prefix(w@, i + 1);
            }
            return true;
        }
        i += 1;
    }
    assert(w@.take(i as int) =~= w@);
    false
}

/// The UTF-8 length of a sequence is at least that of any prefix.
proof fn lemma_utf8_len_prefix(s: Seq<char>, k: int)
    requires
        0 <= k <= s.len(),
    ensures
        utf8_len(s) >= utf8_len(s.take(k)),
    decreases s.len(),
{
    if k < s.len() {
        assert(s.drop_last().take(k) =~= s.take(k));
        lemma_utf8_len_prefix(s.drop_last(), k);
    } else {
        assert(s.take(k) =~= s);
    }
}

fn same_chars(a: &Vec<char>, b: &Vec<char>) -> (r: bool)
    ensures
        r == (a@ == b@),
{
    if a.len() != b.len() {
        return false;
    }
    let mut i: usize = 0;
    while i < a.len()
        invariant
            a@.len() == b@.len(),
            i <= a@.len(),
            forall|j: int| 0 <= j < i ==> a@[j] == b@[j],
        decreases a@.len() - i,
    {
        if a[i] != b[i] {
            return false;
        }
        i += 1;
    }
    assert(a@ =~= b@);
    true
}

fn contains_word(ws: &Vec<Vec<char>>, w: &Vec<char>) -> (r: bool)
    ensures
        r == char_views(ws@).contains(w@),
{
    let mut k: usize = 0;
    while k < ws.len()
        invariant
            k <= ws@.len(),
            forall|j: int| 0 <= j < k ==> ws@[j]@ != w@,
        decreases ws@.len() - k,
    {
        if same_chars(&ws[k], w) {
            assert(char_views(ws@)[k as int] == w@);
            return true;
        }
        k += 1;
    }
    assert forall|j: int| 0 <= j < char_views(ws@).len() implies char_views(ws@)[j] != w@ by {
        assert(char_views(ws@)[j] == ws@[j]@);
    }
    false
}

fn count_shared(mine: &Vec<Vec<char>>, theirs: &Vec<Vec<char>>) -> (r: usize)
    ensures
        r == shared_long_words(char_views(mine@), char_views(theirs@)),
{
    let ghost m = char_views(mine@);
    let ghost t = char_views(theirs@);
    let mut n: usize = 0;
    let mut k: usize = 0;
    while k < mine.len()
        invariant
            k <= mine@.len(),
            m == char_views(mine@),
            t == char_views(theirs@),
            n == shared_long_words(m.take(k as int), t),
            n <= k,
        decreases mine@.len() - k,
    {
        assert(m.take(k + 1).drop_last() =~= m.take(k as int));
        assert(m.take(k + 1).last() == mine@[k as int]@);
        if is_long(&mine[k]) && contains_word(theirs, &mine[k]) {
            n += 1;
        }
        k += 1;
    }
    assert(m.take(k as int) =~= m);
    n
}

fn matches_at(s: &Vec<char>, p: &Vec<char>, i: usize) -> (r: bool)
    requires
        i + p@.len() <= s@.len(),
    ensures
        r == (s@.subrange(i as int, i + p@.len()) == p@),
{
    let n = s.len();
    let mut k: usize = 0;
    while k < p.len()
        invariant
            n == s@.len(),
            i + p@.len() <= s@.len(),
            k <= p@.len(),
            forall|j: int| 0 <= j < k ==> s@[i + j] == p@[j],
        decreases p@.len() - k,
    {
        if s[i + k] != p[k] {
            assert(s@.subrange(i as int, i + p@.len())[k as int] != p@[k as int]);
            return false;
        }
        k += 1;
    }
    assert(s@.subrange(i as int, i + p@.len()) =~= p@);
    true
}

fn has_infix_exec(s: &Vec<char>, p: &Vec<char>) -> (r: bool)
    ensures
        r == has_infix(s@, p@),
{
    if p.len() == 0 {
        assert(s@.subrange(0, 0 + p@.len() as int) =~= p@);
        return true;
    }
    if p.len() > s.len() {
        return false;
    }
    let n = s.len();
    let last = n - p.len();
    let mut i: usize = 0;
    while i <= last
        invariant
            n == s@.len(),
            last == s@.len() - p@.len(),
            last < s@.len(),
            i <= last + 1,
            forall|j: int| 0 <= j < i ==> #[trigger] s@.subrange(j, j + p@.len()) != p@,
        decreases last + 1 - i,
    {
        if matches_at(s, p, i) {
            return true;
        }
        i += 1;
    }
    false
}

/// Whether two lowercase names look alike.
pub fn names_alike(name: &str, other: &str) -> (r: bool)
    ensures
        r == alike(name@, other@),
{
    let a = chars_of(name);
    let b = chars_of(other);
    let wa = split_words(&a);
    let wb = split_words(&b);
    let shared = count_shared(&wa, &wb);
    shared > 0 && (has_infix_exec(&b, &a) || has_infix_exec(&a, &b) || shared >= 2)
}

/// Lists, as `name (SKU: sku)`, the items whose names look like `name`,
/// ignoring case.
pub fn find_similar_items(name: &str, items: &[StockItem]) -> (r: Vec<String>)
    ensures
        string_views(r@) == similar_listings(name@, item_views(items@)),
{
    let ghost iv = item_views(items@);
    let name_lower = lowercase(name);
    let mut r: Vec<String> = Vec::new();
    let mut i: usize = 0;
    assert(iv.take(0) =~= Seq::<ItemView>::empty());
    assert(string_views(r@) =~= Seq::<Seq<char>>::empty());
    while i < items.len()
        invariant
            i <= items@.len(),
            iv == item_views(items@),
            name_lower@ == lower_of(name@),
            string_views(r@) == similar_listings(name@, iv.take(i as int)),
        decreases items@.len() - i,
    {
        let item = &items[i];
        assert(iv.take(i + 1).drop_last() =~= iv.take(i as int));
        assert(iv.take(i + 1).last() == item@);
        let item_lower = lowercase(item.name.as_str());
        if names_alike(name_lower.as_str(), item_lower.as_str()) {
            let mut line = item.name.clone();
            line.append(" (SKU: ");
            line.append(item.sku.as_str());
            line.append(")");
            let ghost before = r@;
            r.push(line);
            assert(string_views(r@) =~= string_views(before).push(listing(item@)));
        }
        i += 1;
    }
    assert(iv.take(i as int) =~= iv);
    r
}

} // verus!
