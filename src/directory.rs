//! Directory items and listings: the tab-separated wire format, parsed and
//! written back.

use vstd::prelude::*;

use crate::item::{char_of_type, is_canonical, type_of_char, Type};
use crate::text::{
    chars_of, decimal, digit_prefix_len, push_decimal, digits_value, find_char, is_digit, lacks,
    lemma_decimal, lemma_digit_prefix_len, lemma_next_index, lemma_next_index_concat, next_index,
};

verus! {

/// Declares std's I/O error so that a failed fetch can be carried in
/// `GopherError`; it is never looked into.
#[verifier::external_type_specification]
#[verifier::external_body]
pub struct ExIoError(std::io::Error);

/// The errors of this library.
#[derive(Debug)]
pub enum GopherError {
    Io(std::io::Error),
    ParseDirectoryItem(String),
    ParseDirectory(String),
}

impl From<std::io::Error> for GopherError {
    fn from(io: std::io::Error) -> (r: GopherError)
        ensures
            r == GopherError::Io(io),
    {
        GopherError::Io(io)
    }
}

impl vstd::std_specs::convert::FromSpecImpl<std::io::Error> for GopherError {
    open spec fn obeys_from_spec() -> bool {
        true
    }

    open spec fn from_spec(io: std::io::Error) -> GopherError {
        GopherError::Io(io)
    }
}

/// The port that an item has when its port field holds no number.
pub const DEFAULT_PORT: usize = 70;

/// The port that a port field stands for: its leading digits, or the
/// default where there are none or they do not fit.
pub open spec fn port_value(p: Seq<char>) -> usize {
    let d = p.take(digit_prefix_len(p) as int);
    if d.len() == 0 || digits_value(d) > usize::MAX {
        DEFAULT_PORT
    } else {
        digits_value(d) as usize
    }
}

/// What a directory item holds.
pub struct ItemView {
    pub t: Type,
    pub name: Seq<char>,
    pub selector: Seq<char>,
    pub host: Seq<char>,
    pub port: usize,
}

/// The item that a line stands for, if it is one: a type code, then the
/// name, selector, host and port fields, separated by the line's first three
/// tabs after the code.
pub open spec fn spec_parse_item(s: Seq<char>) -> Option<ItemView> {
    let a = next_index(s, '\t', 1);
    let b = next_index(s, '\t', a + 1);
    let c = next_index(s, '\t', b + 1);
    if s.len() <= 1 || a >= s.len() || b >= s.len() || c >= s.len() {
        None
    } else {
        Some(
            ItemView {
                t: type_of_char(s[0]),
                name: s.subrange(1, a),
                selector: s.subrange(a + 1, b),
                host: s.subrange(b + 1, c),
                port: port_value(s.skip(c + 1)),
            },
        )
    }
}

/// The wire form of an item, without a line ending.
pub open spec fn item_line(m: ItemView) -> Seq<char> {
    seq![char_of_type(m.t)] + m.name + seq!['\t'] + m.selector + seq!['\t'] + m.host + seq!['\t']
        + decimal(m.port as nat)
}

/// Text that `is_fake` looks for.
pub open spec fn fake_marker() -> Seq<char> {
    seq!['f', 'a', 'k', 'e']
}

/// The heuristic for items that only carry text: a selector that ends in
/// `fake`, or a name or host that is exactly `fake`.
pub open spec fn spec_is_fake(m: ItemView) -> bool {
    (m.selector.len() >= 4 && m.selector.skip(m.selector.len() - 4) == fake_marker())
        || m.name == fake_marker() || m.host == fake_marker()
}

/// An informational item: of type `i`, or fake by the heuristic.
pub open spec fn spec_is_info(m: ItemView) -> bool {
    m.t == Type::Unknown('i') || spec_is_fake(m)
}

/// An item that formats to one line that reads back as itself: a canonical
/// type whose code is no line break, and fields without tabs or line breaks.
pub open spec fn is_writable(m: ItemView) -> bool {
    &&& is_canonical(m.t)
    &&& char_of_type(m.t) != '\n'
    &&& lacks(m.name, '\t') && lacks(m.name, '\n')
    &&& lacks(m.selector, '\t') && lacks(m.selector, '\n')
    &&& lacks(m.host, '\t') && lacks(m.host, '\n')
}

/// An item in a Gopher directory.
#[derive(Debug)]
pub struct DirectoryItem {
    pub t: Type,
    pub name: String,
    pub selector: String,
    pub host: String,
    pub port: usize,
}

impl View for DirectoryItem {
    type V = ItemView;

    open spec fn view(&self) -> ItemView {
        ItemView {
            t: self.t,
            name: self.name@,
            selector: self.selector@,
            host: self.host@,
            port: self.port,
        }
    }
}

/// Reads the port field that starts at `from`.
fn parse_port(v: &Vec<char>, from: usize) -> (r: usize)
    requires
        from <= v@.len(),
    ensures
        r == port_value(v@.skip(from as int)),
{
    let ghost p = v@.skip(from as int);
    let mut i: usize = from;
    let mut value: usize = 0;
    let mut overflow = false;
    while i < v.len() && '0' <= v[i] && v[i] <= '9'
        invariant
            from <= i <= v@.len(),
            p == v@.skip(from as int),
            forall|k: int| from <= k < i ==> is_digit(v@[k]),
            !overflow ==> value == digits_value(v@.subrange(from as int, i as int)),
            overflow ==> digits_value(v@.subrange(from as int, i as int)) > usize::MAX,
        decreases v@.len() - i,
    {
        let ghost before = v@.subrange(from as int, i as int);
        let d = (v[i] as u32 - '0' as u32) as usize;
        proof {
            let after = v@.subrange(from as int, i + 1);
            assert(after.drop_last() =~= before);
            assert(digits_value(after) == digits_value(before) * 10 + d);
        }
        if !overflow {
            if value > (usize::MAX - d) / 10 {
                overflow = true;
            } else {
                value = value * 10 + d;
            }
        }
        i = i + 1;
    }
    proof {
        let n = (i - from) as int;
        assert forall|k: int| 0 <= k < n implies is_digit(p[k]) by {
            assert(p[k] == v@[from + k]);
        }
        if n < p.len() {
            assert(p[n] == v@[i as int]);
        }
        lemma_digit_prefix_len(p, n);
        assert(p.take(n) =~= v@.subrange(from as int, i as int));
    }
    if i == from || overflow {
        DEFAULT_PORT
    } else {
        value
    }
}

/// The string of one character.
/// Relies on `ToString::to_string` for `char`, which writes that character.
#[verifier::external_body]
fn char_string(c: char) -> (r: String)
    ensures
        r@ == seq![c],
{
    c.to_string()
}

/// Whether `s` ends in `fake`; with `exact`, whether it is `fake`.
fn matches_fake(s: &str, exact: bool) -> (r: bool)
    ensures
        r == if exact {
            s@ == fake_marker()
        } else {
            s@.len() >= 4 && s@.skip(s@.len() - 4) == fake_marker()
        },
{
    let n = s.unicode_len();
    if n < 4 || (exact && n != 4) {
        return false;
    }
    let r = s.get_char(n - 4) == 'f' && s.get_char(n - 3) == 'a' && s.get_char(n - 2) == 'k'
        && s.get_char(n - 1) == 'e';
    proof {
        if r {
            assert(s@.skip(n - 4) =~= fake_marker());
            if exact {
                assert(s@ =~= fake_marker());
            }
        } else {
            let t = s@.skip(n - 4);
            if t == fake_marker() {
                assert(t[0] == s@[n - 4] && t[1] == s@[n - 3] && t[2] == s@[n - 2] && t[3]
                    == s@[n - 1]);
            }
        }
    }
    r
}

impl DirectoryItem {
    /// Whether the item probably only carries text, by a convention of many
    /// servers; a heuristic, not part of the protocol.
    pub fn is_fake(&self) -> (r: bool)
        ensures
            r == spec_is_fake(self@),
    {
        matches_fake(self.selector.as_str(), false) || matches_fake(self.name.as_str(), true)
            || matches_fake(self.host.as_str(), true)
    }

    /// Whether the item is informational: of type `i`, or fake by the
    /// heuristic of `is_fake`. Such an item has no target to fetch.
    pub fn is_info(&self) -> (r: bool)
        ensures
            r == spec_is_info(self@),
    {
        match self.t {
            Type::Unknown(c) => c == 'i' || self.is_fake(),
            _ => self.is_fake(),
        }
    }

    /// The item's wire form, without a line ending.
    pub fn to_string(&self) -> (r: String)
        ensures
            r@ == item_line(self@),
    {
        let mut out = char_string(self.t.as_char());
        proof {
            reveal_strlit("\t");
        }
        out.append(self.name.as_str());
        out.append("\t");
        out.append(self.selector.as_str());
        out.append("\t");
        out.append(self.host.as_str());
        out.append("\t");
        push_decimal(&mut out, self.port);
        assert(out@ =~= item_line(self@));
        out
    }

    /// Parses one line of a directory listing.
    pub fn from_str(s: &str) -> (r: Result<DirectoryItem, GopherError>)
        ensures
            match spec_parse_item(s@) {
                Some(m) => r matches Ok(item) && item@ == m,
                None => r matches Err(GopherError::ParseDirectoryItem(l)) && l@ == s@,
            },
    {
        let v = chars_of(s);
        let n = v.len();
        if n <= 1 {
            return Err(GopherError::ParseDirectoryItem(String::from_str(s)));
        }
        let a = find_char(&v, '\t', 1);
        if a >= n {
            return Err(GopherError::ParseDirectoryItem(String::from_str(s)));
        }
        let b = find_char(&v, '\t', a + 1);
        if b >= n {
            return Err(GopherError::ParseDirectoryItem(String::from_str(s)));
        }
        let c = find_char(&v, '\t', b + 1);
        if c >= n {
            return Err(GopherError::ParseDirectoryItem(String::from_str(s)));
        }
        let t = Type::from_char(v[0]);
        let name = String::from_str(s.substring_char(1, a));
        let selector = String::from_str(s.substring_char(a + 1, b));
        let host = String::from_str(s.substring_char(b + 1, c));
        let port = parse_port(&v, c + 1);
        Ok(DirectoryItem { t, name, selector, host, port })
    }
}

} // verus!

verus! {

/// A line without the carriage return of a `\r\n` ending.
pub open spec fn strip_cr(l: Seq<char>) -> Seq<char> {
    if l.len() > 0 && l.last() == '\r' {
        l.drop_last()
    } else {
        l
    }
}

/// The lines of `s` from `pos` on: split at `\n`, without the ending; a line
/// that ended in `\r\n` loses the `\r` too; a final ending opens no new line.
pub open spec fn lines_from(s: Seq<char>, pos: int) -> Seq<Seq<char>>
    decreases s.len() - pos,
{
    let e = next_index(s, '\n', pos);
    if pos < 0 || pos >= s.len() || e < pos {
        seq![]
    } else if e >= s.len() {
        seq![s.subrange(pos, s.len() as int)]
    } else {
        seq![strip_cr(s.subrange(pos, e))] + lines_from(s, e + 1)
    }
}

/// The items of a listing given as lines, up to a line `.`; the first line
/// that is no item is the error.
pub open spec fn spec_parse_lines(ls: Seq<Seq<char>>) -> Result<Seq<ItemView>, Seq<char>>
    decreases ls.len(),
{
    if ls.len() == 0 || ls[0] == seq!['.'] {
        Ok(seq![])
    } else {
        match spec_parse_item(ls[0]) {
            None => Err(ls[0]),
            Some(m) => match spec_parse_lines(ls.skip(1)) {
                Ok(ms) => Ok(seq![m] + ms),
                Err(l) => Err(l),
            },
        }
    }
}

/// The items of a listing, or the first line that is no item.
pub open spec fn spec_parse_directory(s: Seq<char>) -> Result<Seq<ItemView>, Seq<char>> {
    spec_parse_lines(lines_from(s, 0))
}

/// The lines of the items, each ended by `\n`.
pub open spec fn lines_text(ms: Seq<ItemView>) -> Seq<char>
    decreases ms.len(),
{
    if ms.len() == 0 {
        seq![]
    } else {
        lines_text(ms.drop_last()) + item_line(ms.last()) + seq!['\n']
    }
}

/// The wire form of a listing: its item lines, then the line `.`.
pub open spec fn spec_format(ms: Seq<ItemView>) -> Seq<char> {
    lines_text(ms) + seq!['.']
}

/// Items already read, put before what the rest of the input gives.
pub open spec fn prepend(ms: Seq<ItemView>, r: Result<Seq<ItemView>, Seq<char>>) -> Result<
    Seq<ItemView>,
    Seq<char>,
> {
    match r {
        Ok(rest) => Ok(ms + rest),
        Err(l) => Err(l),
    }
}

pub open spec fn views_of(items: Seq<DirectoryItem>) -> Seq<ItemView> {
    items.map_values(|i: DirectoryItem| i@)
}

/// A Gopher directory: its items in listing order.
#[derive(Debug)]
pub struct Directory {
    items: Vec<DirectoryItem>,
}

impl View for Directory {
    type V = Seq<ItemView>;

    closed spec fn view(&self) -> Seq<ItemView> {
        views_of(self.items@)
    }
}

impl Directory {
    /// Parses a listing: one item per line, up to a line `.` or the end.
    pub fn from_str(s: &str) -> (r: Result<Directory, GopherError>)
        ensures
            match spec_parse_directory(s@) {
                Ok(ms) => r matches Ok(d) && d@ == ms,
                Err(l) => r matches Err(GopherError::ParseDirectory(e)) && e@ == l,
            },
    {
        let v = chars_of(s);
        let n = v.len();
        let mut pos: usize = 0;
        let mut items: Vec<DirectoryItem> = Vec::new();
        while pos < n
            invariant
                v@ == s@,
                n == v@.len(),
                pos <= n,
                spec_parse_directory(s@) == prepend(
                    views_of(items@),
                    spec_parse_lines(lines_from(v@, pos as int)),
                ),
            decreases n - pos,
        {
            let e = find_char(&v, '\n', pos);
            let end = if e < n && e > pos && v[e - 1] == '\r' {
                e - 1
            } else {
                e
            };
            let ghost line = v@.subrange(pos as int, end as int);
            let ghost ls = lines_from(v@, pos as int);
            proof {
                if e < n {
                    assert(line =~= strip_cr(v@.subrange(pos as int, e as int)));
                    assert(ls.skip(1) =~= lines_from(v@, e + 1));
                } else {
                    assert(ls.skip(1) =~= lines_from(v@, n as int));
                }
                assert(ls[0] == line);
            }
            if end == pos + 1 && v[pos] == '.' {
                assert(line =~= seq!['.']);
                assert(views_of(items@) + seq![] =~= views_of(items@));
                return Ok(Directory { items });
            }
            proof {
                if line == seq!['.'] {
                    assert(line[0] == v@[pos as int]);
                }
            }
            let text = s.substring_char(pos, end);
            match DirectoryItem::from_str(text) {
                Ok(item) => {
                    let ghost before = views_of(items@);
                    items.push(item);
                    assert(views_of(items@) =~= before + seq![item@]);
                    assert(before + (seq![item@] + match spec_parse_lines(ls.skip(1)) {
                        Ok(ms) => ms,
                        Err(_) => seq![],
                    }) =~= views_of(items@) + match spec_parse_lines(ls.skip(1)) {
                        Ok(ms) => ms,
                        Err(_) => seq![],
                    });
                },
                Err(_) => {
                    return Err(GopherError::ParseDirectory(String::from_str(text)));
                },
            }
            pos = if e < n {
                e + 1
            } else {
                n
            };
        }
        assert(views_of(items@) + seq![] =~= views_of(items@));
        Ok(Directory { items })
    }

    /// The items, in listing order.
    pub fn items(&self) -> (r: &[DirectoryItem])
        ensures
            views_of(r@) == self@,
    {
        self.items.as_slice()
    }

    /// The listing's wire form: each item's line ended by `\n`, then `.`.
    pub fn to_string(&self) -> (r: String)
        ensures
            r@ == spec_format(self@),
    {
        let mut out = String::new();
        let mut i: usize = 0;
        proof {
            reveal_strlit("\n");
            reveal_strlit(".");
        }
        while i < self.items.len()
            invariant
                i <= self.items@.len(),
                out@ == lines_text(views_of(self.items@).take(i as int)),
            decreases self.items@.len() - i,
        {
            let ghost before = out@;
            let line = self.items[i].to_string();
            out.append(line.as_str());
            out.append("\n");
            proof {
                reveal_strlit("\n");
                let ms = views_of(self.items@).take(i + 1);
                assert(ms.drop_last() =~= views_of(self.items@).take(i as int));
                assert(ms.last() == self.items@[i as int]@);
                assert(out@ =~= before + item_line(ms.last()) + seq!['\n']);
            }
            i = i + 1;
        }
        assert(views_of(self.items@).take(i as int) =~= self@);
        out.append(".");
        out
    }
}

} // verus!

verus! {

/// The line made of a type code and four fields.
pub open spec fn four_fields(
    c: char,
    name: Seq<char>,
    selector: Seq<char>,
    host: Seq<char>,
    port: Seq<char>,
) -> Seq<char> {
    seq![c] + name + seq!['\t'] + selector + seq!['\t'] + host + seq!['\t'] + port
}

/// A line of a type code and four tab-separated fields, the first three
/// without tabs, parses into those fields, the code read as a type and the
/// last field as a port.
pub proof fn lemma_parse_fields(
    c: char,
    name: Seq<char>,
    selector: Seq<char>,
    host: Seq<char>,
    port: Seq<char>,
)
    requires
        lacks(name, '\t'),
        lacks(selector, '\t'),
        lacks(host, '\t'),
    ensures
        spec_parse_item(four_fields(c, name, selector, host, port)) == Some(
            ItemView { t: type_of_char(c), name, selector, host, port: port_value(port) },
        ),
{
    let s = four_fields(c, name, selector, host, port);
    let a1 = seq![c] + name;
    let a2 = a1 + seq!['\t'] + selector;
    let a3 = a2 + seq!['\t'] + host;
    assert(s =~= a1 + seq!['\t'] + (selector + seq!['\t'] + host + seq!['\t'] + port));
    assert forall|k: int| 1 <= k < a1.len() implies a1[k] != '\t' by {
        assert(a1[k] == name[k - 1]);
    }
    lemma_next_index_concat(a1, selector + seq!['\t'] + host + seq!['\t'] + port, '\t', 1);
    let a = a1.len() as int;
    assert(s =~= a2 + seq!['\t'] + (host + seq!['\t'] + port));
    assert forall|k: int| a + 1 <= k < a2.len() implies a2[k] != '\t' by {
        assert(a2[k] == selector[k - a - 1]);
    }
    lemma_next_index_concat(a2, host + seq!['\t'] + port, '\t', a + 1);
    let b = a2.len() as int;
    assert(s =~= a3 + seq!['\t'] + port);
    assert forall|k: int| b + 1 <= k < a3.len() implies a3[k] != '\t' by {
        assert(a3[k] == host[k - b - 1]);
    }
    lemma_next_index_concat(a3, port, '\t', b + 1);
    let e = a3.len() as int;
    assert(s.subrange(1, a) =~= name);
    assert(s.subrange(a + 1, b) =~= selector);
    assert(s.subrange(b + 1, e) =~= host);
    assert(s.skip(e + 1) =~= port);
}

/// A line of one character or none is no item.
pub proof fn lemma_short_line(s: Seq<char>)
    requires
        s.len() <= 1,
    ensures
        spec_parse_item(s) is None,
{
}

/// A port field that is empty or does not start with a digit gives the
/// default port.
pub proof fn lemma_default_port(
    c: char,
    name: Seq<char>,
    selector: Seq<char>,
    host: Seq<char>,
    port: Seq<char>,
)
    requires
        lacks(name, '\t'),
        lacks(selector, '\t'),
        lacks(host, '\t'),
        port.len() == 0 || !is_digit(port[0]),
    ensures
        spec_parse_item(four_fields(c, name, selector, host, port)) matches Some(m) && m.port
            == DEFAULT_PORT,
{
    lemma_parse_fields(c, name, selector, host, port);
    lemma_digit_prefix_len(port, 0);
}

/// The decimal form of a port reads back as that port.
pub proof fn lemma_port_decimal(n: usize)
    ensures
        port_value(decimal(n as nat)) == n,
{
    let d = decimal(n as nat);
    lemma_decimal(n as nat);
    lemma_digit_prefix_len(d, d.len() as int);
    assert(d.take(d.len() as int) =~= d);
}

proof fn lemma_next_index_shift(p: Seq<char>, s: Seq<char>, c: char, pos: int)
    requires
        0 <= pos,
    ensures
        next_index(p + s, c, p.len() + pos) == p.len() + next_index(s, c, pos),
    decreases s.len() - pos,
{
    if pos < s.len() {
        assert((p + s)[p.len() + pos] == s[pos]);
        lemma_next_index_shift(p, s, c, pos + 1);
    }
}

proof fn lemma_lines_shift(p: Seq<char>, s: Seq<char>, pos: int)
    requires
        0 <= pos,
    ensures
        lines_from(p + s, p.len() + pos) == lines_from(s, pos),
    decreases s.len() - pos,
{
    lemma_next_index_shift(p, s, '\n', pos);
    let e = next_index(s, '\n', pos);
    if pos < s.len() && e >= pos {
        if e >= s.len() {
            assert((p + s).subrange(p.len() + pos, (p + s).len() as int) =~= s.subrange(
                pos,
                s.len() as int,
            ));
        } else {
            assert((p + s).subrange(p.len() + pos, p.len() + e) =~= s.subrange(pos, e));
            lemma_lines_shift(p, s, e + 1);
        }
    }
}

proof fn lemma_lines_text_front(ms: Seq<ItemView>)
    requires
        ms.len() > 0,
    ensures
        lines_text(ms) == item_line(ms[0]) + seq!['\n'] + lines_text(ms.skip(1)),
    decreases ms.len(),
{
    if ms.len() == 1 {
        assert(ms.drop_last() =~= Seq::<ItemView>::empty());
        assert(ms.skip(1) =~= Seq::<ItemView>::empty());
        assert(lines_text(ms) =~= item_line(ms[0]) + seq!['\n'] + lines_text(ms.skip(1)));
    } else {
        lemma_lines_text_front(ms.drop_last());
        assert(ms.drop_last().skip(1) =~= ms.skip(1).drop_last());
        assert(ms.skip(1).last() == ms.last());
        assert(lines_text(ms) =~= item_line(ms[0]) + seq!['\n'] + lines_text(ms.skip(1)));
    }
}

proof fn lemma_item_line(m: ItemView)
    requires
        is_writable(m),
    ensures
        spec_parse_item(item_line(m)) == Some(m),
        lacks(item_line(m), '\n'),
        item_line(m).len() > 1,
        item_line(m).last() != '\r',
{
    let d = decimal(m.port as nat);
    lemma_parse_fields(char_of_type(m.t), m.name, m.selector, m.host, d);
    lemma_port_decimal(m.port);
    lemma_decimal(m.port as nat);
    crate::item::lemma_type_round_trip(m.t);
    let l = item_line(m);
    assert(l == four_fields(char_of_type(m.t), m.name, m.selector, m.host, d));
    let n1 = 1 + m.name.len();
    let n2 = n1 + 1 + m.selector.len();
    let n3 = n2 + 1 + m.host.len();
    assert forall|k: int| 0 <= k < l.len() implies l[k] != '\n' by {
        if k == 0 {
        } else if k < n1 {
            assert(l[k] == m.name[k - 1]);
        } else if k == n1 {
        } else if k < n2 {
            assert(l[k] == m.selector[k - n1 - 1]);
        } else if k == n2 {
        } else if k < n3 {
            assert(l[k] == m.host[k - n2 - 1]);
        } else if k == n3 {
        } else {
            assert(l[k] == d[k - n3 - 1]);
        }
    }
    assert(l.last() == d.last());
}

proof fn lemma_lines_cons(l: Seq<char>, r: Seq<char>)
    requires
        lacks(l, '\n'),
        l.len() > 0,
        l.last() != '\r',
    ensures
        lines_from(l + seq!['\n'] + r, 0) == seq![l] + lines_from(r, 0),
{
    let p = l + seq!['\n'];
    let s = p + r;
    assert forall|k: int| 0 <= k < l.len() implies s[k] != '\n' by {
        assert(s[k] == l[k]);
    }
    assert(s[l.len() as int] == '\n');
    lemma_next_index(s, '\n', 0, l.len() as int);
    assert(s.subrange(0, l.len() as int) =~= l);
    lemma_lines_shift(p, r, 0);
    assert(l + seq!['\n'] + r == s);
}

proof fn lemma_parse_terminator()
    ensures
        spec_parse_directory(spec_format(seq![])) == Ok::<Seq<ItemView>, Seq<char>>(seq![]),
{
    let s = spec_format(seq![]);
    assert(s =~= seq!['.']);
    lemma_next_index(s, '\n', 0, 1);
    assert(s.subrange(0, 1) =~= seq!['.']);
    assert(lines_from(s, 0) =~= seq![seq!['.']]);
}

/// Formatting a listing of writable items and parsing the text gives the
/// same items back: the terminator that formatting appends ends the parse.
pub proof fn lemma_format_round_trip(ms: Seq<ItemView>)
    requires
        forall|i: int| 0 <= i < ms.len() ==> is_writable(#[trigger] ms[i]),
    ensures
        spec_parse_directory(spec_format(ms)) == Ok::<Seq<ItemView>, Seq<char>>(ms),
    decreases ms.len(),
{
    if ms.len() == 0 {
        assert(ms =~= seq![]);
        lemma_parse_terminator();
    } else {
        let l = item_line(ms[0]);
        let rest = ms.skip(1);
        lemma_item_line(ms[0]);
        lemma_lines_text_front(ms);
        assert(spec_format(ms) =~= l + seq!['\n'] + spec_format(rest));
        lemma_lines_cons(l, spec_format(rest));
        assert forall|i: int| 0 <= i < rest.len() implies is_writable(#[trigger] rest[i]) by {
            assert(rest[i] == ms[i + 1]);
        }
        lemma_format_round_trip(rest);
        let ls = lines_from(spec_format(ms), 0);
        assert(ls.skip(1) =~= lines_from(spec_format(rest), 0));
        assert(ls[0] == l);
        assert(l.len() > 1);
        assert(l != seq!['.']);
        assert(seq![ms[0]] + rest =~= ms);
    }
}

} // verus!
