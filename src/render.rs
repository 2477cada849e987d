//! What a view shows: the rows of a listing with their selection keys, the
//! lines of a text, and the scroll note. Drawing them is the caller's part.

use vstd::prelude::*;

use crate::directory::{lines_from, spec_is_info, strip_cr, views_of, Directory, ItemView};
use crate::item::Type;
use crate::session::selected;
use crate::text::{chars_of, decimal, find_char, push_decimal};

verus! {

/// The keys that select the navigable items shown, in rank order.
pub open spec fn menu_keys() -> Seq<char> {
    seq![
        '0', '1', '2', '3', '4', '5', '6', '7', '8', '9', 'a', 'b',
        'c', 'd', 'e', 'f', 'g', 'h', 'i', 'j', 'k', 'l', 'm', 'n',
        'o', 'p', 'q', 'r', 's', 't', 'u', 'v', 'w', 'x', 'y', 'z',
        'A', 'B', 'C', 'D', 'E', 'F', 'G', 'H', 'I', 'J', 'K', 'L',
        'M', 'N', 'O', 'P', 'Q', 'R', 'S', 'T', 'U', 'V', 'W', 'X',
        'Y', 'Z', '!', '@', '#', '$', '%', '^', '&', '*', '\u{28}', '\u{29}',
        '-', '+', '_', '=',
    ]
}

/// The key of the navigable item of rank `rank`, where the keys reach.
pub open spec fn key_for(rank: nat) -> Option<char> {
    if rank < menu_keys().len() {
        Some(menu_keys()[rank as int])
    } else {
        None
    }
}

/// The number of navigable items in `ms[lo..hi]`.
pub open spec fn nav_count(ms: Seq<ItemView>, lo: int, hi: int) -> nat
    decreases hi - lo,
{
    if hi <= lo {
        0
    } else {
        nav_count(ms, lo, hi - 1) + if spec_is_info(ms[hi - 1]) {
            0nat
        } else {
            1nat
        }
    }
}

/// The number of navigable items at or after `start`.
pub open spec fn navigable_after(ms: Seq<ItemView>, start: int) -> nat
    decreases ms.len() - start,
{
    if start < 0 || start >= ms.len() {
        0
    } else {
        navigable_after(ms, start + 1) + if spec_is_info(ms[start]) {
            0nat
        } else {
            1nat
        }
    }
}

/// Asking for the `n`-th navigable item after an offset finds none exactly
/// when fewer than `n + 1` navigable items follow the offset.
pub proof fn lemma_no_such_item(ms: Seq<ItemView>, start: int, n: nat)
    requires
        0 <= start,
    ensures
        (selected(ms, start, n) is None) <==> navigable_after(ms, start) <= n,
        selected(ms, start, n) matches Some(i) ==> start <= i < ms.len(),
    decreases ms.len() - start,
{
    if start < ms.len() {
        if spec_is_info(ms[start]) {
            lemma_no_such_item(ms, start + 1, n);
        } else if n > 0 {
            lemma_no_such_item(ms, start + 1, (n - 1) as nat);
        }
    }
}

/// One row of a listing as shown.
#[derive(Debug)]
pub enum Row {
    /// An informational item: its text.
    Info(String),
    /// A navigable item: its selection key where the keys reach, its type
    /// and its name.
    Entry(Option<char>, Type, String),
}

/// The row that shows item `m`, navigable or not, of rank `rank`.
pub open spec fn is_row(r: Row, m: ItemView, rank: nat) -> bool {
    if spec_is_info(m) {
        r matches Row::Info(t) && t@ == m.name
    } else {
        r matches Row::Entry(k, t, name) && k == key_for(rank) && t == m.t && name@ == m.name
    }
}

/// The selection key of rank `rank`.
pub fn menu_key(rank: usize) -> (r: Option<char>)
    ensures
        r == key_for(rank as nat),
{
    let keys = "0123456789abcdefghijklmnopqrstuvwxyzABCDEFGHIJKLMNOPQRSTUVWXYZ!@#$%^&*()-+_=";
    proof {
        reveal_strlit("0123456789abcdefghijklmnopqrstuvwxyzABCDEFGHIJKLMNOPQRSTUVWXYZ!@#$%^&*()-+_=");
        assert(keys@ =~= menu_keys());
    }
    if rank < keys.unicode_len() {
        Some(keys.get_char(rank))
    } else {
        None
    }
}

/// The rank that key `c` selects, if it is a selection key.
pub fn key_rank(c: char) -> (r: Option<usize>)
    ensures
        match r {
            Some(i) => key_for(i as nat) == Some(c),
            None => forall|i: int| 0 <= i < menu_keys().len() ==> menu_keys()[i] != c,
        },
{
    let mut i: usize = 0;
    while i < 76
        invariant
            i <= 76,
            menu_keys().len() == 76,
            forall|j: int| 0 <= j < i ==> menu_keys()[j] != c,
        decreases 76 - i,
    {
        if menu_key(i) == Some(c) {
            return Some(i);
        }
        i = i + 1;
    }
    None
}

/// The rows of a listing from offset `scroll` on: informational items as
/// text, the others with the key of their rank among the navigable rows.
pub fn directory_rows(dir: &Directory, scroll: usize) -> (r: Vec<Row>)
    ensures
        r@.len() == if scroll < dir@.len() {
            dir@.len() - scroll
        } else {
            0
        },
        forall|j: int|
            0 <= j < r@.len() ==> is_row(
                #[trigger] r@[j],
                dir@[scroll + j],
                nav_count(dir@, scroll as int, scroll + j),
            ),
{
    let items = dir.items();
    let ghost ms = dir@;
    let mut out: Vec<Row> = Vec::new();
    if scroll >= items.len() {
        return out;
    }
    let mut i: usize = scroll;
    let mut rank: usize = 0;
    while i < items.len()
        invariant
            views_of(items@) == ms,
            ms == dir@,
            ms.len() == items@.len(),
            scroll <= i <= items@.len(),
            out@.len() == i - scroll,
            rank == nav_count(ms, scroll as int, i as int),
            rank <= i - scroll,
            forall|j: int|
                0 <= j < out@.len() ==> is_row(
                    #[trigger] out@[j],
                    ms[scroll + j],
                    nav_count(ms, scroll as int, scroll + j),
                ),
        decreases items@.len() - i,
    {
        let item = &items[i];
        assert(ms[i as int] == item@);
        if item.is_info() {
            out.push(Row::Info(item.name.clone()));
        } else {
            out.push(Row::Entry(menu_key(rank), item.t, item.name.clone()));
            rank = rank + 1;
        }
        i = i + 1;
    }
    out
}

/// The lines of a text, split at `\n`, a `\r\n` ending taken off too.
pub fn split_lines(s: &str) -> (r: Vec<String>)
    ensures
        r@.map_values(|l: String| l@) == lines_from(s@, 0),
{
    let v = chars_of(s);
    let n = v.len();
    let mut pos: usize = 0;
    let mut out: Vec<String> = Vec::new();
    while pos < n
        invariant
            v@ == s@,
            n == v@.len(),
            pos <= n,
            lines_from(v@, 0) == out@.map_values(|l: String| l@) + lines_from(v@, pos as int),
        decreases n - pos,
    {
        let e = find_char(&v, '\n', pos);
        let end = if e < n && e > pos && v[e - 1] == '\r' {
            e - 1
        } else {
            e
        };
        let ghost ls = lines_from(v@, pos as int);
        let ghost before = out@.map_values(|l: String| l@);
        proof {
            if e < n {
                assert(v@.subrange(pos as int, end as int) =~= strip_cr(
                    v@.subrange(pos as int, e as int),
                ));
            }
        }
        out.push(String::from_str(s.substring_char(pos, end)));
        pos = if e < n {
            e + 1
        } else {
            n
        };
        proof {
            assert(out@.map_values(|l: String| l@) =~= before.push(ls[0]));
            assert(ls =~= seq![ls[0]] + lines_from(v@, pos as int));
            assert(before + ls =~= out@.map_values(|l: String| l@) + lines_from(v@, pos as int));
        }
    }
    proof {
        assert(out@.map_values(|l: String| l@) + lines_from(v@, pos as int) =~= out@.map_values(
            |l: String| l@,
        ));
    }
    out
}

/// The lines of a text from offset `scroll` on.
pub fn text_rows(s: &str, scroll: usize) -> (r: Vec<String>)
    ensures
        r@.map_values(|l: String| l@) == if scroll < lines_from(s@, 0).len() {
            lines_from(s@, 0).skip(scroll as int)
        } else {
            seq![]
        },
{
    let all = split_lines(s);
    let ghost ls = lines_from(s@, 0);
    let mut out: Vec<String> = Vec::new();
    let mut i: usize = scroll;
    while i < all.len()
        invariant
            all@.map_values(|l: String| l@) == ls,
            scroll <= i,
            scroll < all@.len() ==> i <= all@.len(),
            scroll < all@.len() ==> out@.map_values(|l: String| l@) == ls.subrange(
                scroll as int,
                i as int,
            ),
            scroll >= all@.len() ==> out@.len() == 0,
        decreases all@.len() - i,
    {
        let ghost before = out@.map_values(|l: String| l@);
        out.push(all[i].clone());
        proof {
            assert(out@.map_values(|l: String| l@) =~= before.push(ls[i as int]));
            assert(ls.subrange(scroll as int, i + 1) =~= ls.subrange(scroll as int, i as int).push(
                ls[i as int],
            ));
        }
        i = i + 1;
    }
    proof {
        if scroll < ls.len() {
            assert(ls.subrange(scroll as int, i as int) =~= ls.skip(scroll as int));
        } else {
            assert(out@.map_values(|l: String| l@) =~= Seq::<Seq<char>>::empty());
        }
    }
    out
}

/// The note that a scrolled view shows: `[scroll/total]`; none at offset
/// zero.
pub fn scroll_note(scroll: usize, total: usize) -> (r: Option<String>)
    ensures
        scroll == 0 <==> r is None,
        r matches Some(t) ==> t@ == seq!['['] + decimal(scroll as nat) + seq!['/'] + decimal(
            total as nat,
        ) + seq![']'],
{
    if scroll == 0 {
        return None;
    }
    proof {
        reveal_strlit("[");
        reveal_strlit("/");
        reveal_strlit("]");
    }
    let mut out = String::new();
    out.append("[");
    push_decimal(&mut out, scroll);
    out.append("/");
    push_decimal(&mut out, total);
    out.append("]");
    assert(out@ =~= seq!['['] + decimal(scroll as nat) + seq!['/'] + decimal(total as nat) + seq![
        ']',
    ]);
    Some(out)
}

} // verus!
