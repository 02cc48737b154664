//! The header collection: one value per name, names compared without regard
//! to ASCII letter case, kept in the order in which the names first came and
//! written out in the casing in which each first came.

use crate::status::StatusCode;
use crate::text::{
    chars_eq, chars_of, crlf, eq_ignore_case, find, find_from, find_in, lemma_find_from, lower,
    piece,
    to_lower, trim, trim_bounds,
};
use vstd::prelude::*;

verus! {

/// The model of a header collection: the names as first inserted, each with
/// its current value, in insertion order.
pub type HeaderList = Seq<(Seq<char>, Seq<char>)>;

/// The text between a header's name and its value on the wire.
pub open spec fn name_separator() -> Seq<char> {
    seq![':', ' ']
}

/// The index of the first entry at or after `i` whose name is `name` but for
/// letter case.
pub open spec fn position_from(list: HeaderList, name: Seq<char>, i: int) -> Option<int>
    decreases list.len() - i,
{
    if i < 0 || i >= list.len() {
        None
    } else if eq_ignore_case(list[i].0, name) {
        Some(i)
    } else {
        position_from(list, name, i + 1)
    }
}

/// The index of the entry named `name`, whatever the letter case.
pub open spec fn position(list: HeaderList, name: Seq<char>) -> Option<int> {
    position_from(list, name, 0)
}

/// The value stored under `name`, whatever the letter case.
pub open spec fn lookup(list: HeaderList, name: Seq<char>) -> Option<Seq<char>> {
    match position(list, name) {
        Some(i) => Some(list[i].1),
        None => None,
    }
}

/// The collection after `value` is stored under `name`: an entry of that
/// name keeps its place and its casing and takes the value; without one, a
/// new entry is added at the end.
pub open spec fn store(list: HeaderList, name: Seq<char>, value: Seq<char>) -> HeaderList {
    match position(list, name) {
        Some(i) => list.update(i, (list[i].0, value)),
        None => list.push((name, value)),
    }
}

/// No two entries share a name, whatever the letter case.
pub open spec fn distinct_names(list: HeaderList) -> bool {
    forall|i: int, j: int|
        0 <= i < j < list.len() ==> !eq_ignore_case((#[trigger] list[i]).0, (#[trigger] list[j]).0)
}

/// One header on the wire: the name, a colon and a space, the value, and the
/// line terminator.
pub open spec fn header_line(entry: (Seq<char>, Seq<char>)) -> Seq<char> {
    entry.0 + name_separator() + entry.1 + crlf()
}

/// The wire form of a collection: each entry's line, in insertion order.
pub open spec fn serialize(list: HeaderList) -> Seq<char>
    decreases list.len(),
{
    if list.len() == 0 {
        Seq::empty()
    } else {
        header_line(list[0]) + serialize(list.drop_first())
    }
}

/// The name and the value that one line of a header block holds: the text
/// before the first colon, and the text after it without the whitespace
/// around it. A line without a colon holds none.
pub open spec fn parse_line(line: Seq<char>) -> Option<(Seq<char>, Seq<char>)> {
    match find(line, seq![':']) {
        Some(i) => Some((line.subrange(0, i), trim(line.subrange(i + 1, line.len() as int)))),
        None => None,
    }
}

/// The collection that results from storing, into `list`, the headers of
/// the lines of `block` from index `from` on, line by line. A line without a
/// colon makes the whole block unreadable.
pub open spec fn parse_block_from(block: Seq<char>, from: int, list: HeaderList) -> Option<
    HeaderList,
>
    decreases block.len() - from,
{
    if from < 0 || from > block.len() {
        None
    } else {
        match find_from(block, crlf(), from) {
            Some(end) => if from <= end && end + 2 <= block.len() {
                match parse_line(block.subrange(from, end)) {
                    Some((name, value)) => parse_block_from(
                        block,
                        end + 2,
                        store(list, name, value),
                    ),
                    None => None,
                }
            } else {
                None
            },
            None => match parse_line(block.subrange(from, block.len() as int)) {
                Some((name, value)) => Some(store(list, name, value)),
                None => None,
            },
        }
    }
}

/// The collection that a header block spells: its lines, separated by line
/// terminators, stored in order into an empty collection.
pub open spec fn parse_block(block: Seq<char>) -> Option<HeaderList> {
    parse_block_from(block, 0, Seq::empty())
}

/// What `position_from` returns is the first entry of that name at or after
/// `i`, and it returns `None` only when there is none.
pub proof fn lemma_position_from(list: HeaderList, name: Seq<char>, i: int)
    requires
        0 <= i,
    ensures
        match position_from(list, name, i) {
            Some(k) => i <= k < list.len() && eq_ignore_case(list[k].0, name) && forall|j: int|
                i <= j < k ==> !eq_ignore_case((#[trigger] list[j]).0, name),
            None => forall|j: int|
                i <= j < list.len() ==> !eq_ignore_case((#[trigger] list[j]).0, name),
        },
    decreases list.len() - i,
{
    if i < list.len() && !eq_ignore_case(list[i].0, name) {
        lemma_position_from(list, name, i + 1);
    }
}

/// The name of a header as it was first written, with the lower-case form
/// by which it is compared.
#[derive(Debug)]
pub struct HeaderKey {
    written: String,
    lowercase: Vec<char>,
}

impl HeaderKey {
    #[verifier::type_invariant]
    spec fn folded(self) -> bool {
        self.lowercase@ == lower(self.written@)
    }

    /// The name as it was written.
    pub closed spec fn name(self) -> Seq<char> {
        self.written@
    }

    /// The key for the name `s`.
    pub fn new(s: String) -> (key: HeaderKey)
        ensures
            key.name() == s@,
    {
        let chars = chars_of(s.as_str());
        let lowercase = to_lower(chars.as_slice());
        HeaderKey { written: s, lowercase }
    }

    /// Whether two keys name the same header: their names are equal but for
    /// letter case.
    pub fn same(&self, other: &HeaderKey) -> (b: bool)
        ensures
            b == eq_ignore_case(self.name(), other.name()),
    {
        proof {
            use_type_invariant(self);
            use_type_invariant(other);
        }
        chars_eq(self.lowercase.as_slice(), other.lowercase.as_slice())
    }

    /// The name as it was written.
    pub fn as_str(&self) -> (s: &str)
        ensures
            s@ == self.name(),
    {
        self.written.as_str()
    }

    /// Whether this key's lower-case form is `folded`.
    fn matches(&self, folded: &[char]) -> (b: bool)
        ensures
            b == (lower(self.name()) == folded@),
    {
        proof {
            use_type_invariant(self);
        }
        chars_eq(self.lowercase.as_slice(), folded)
    }
}

impl PartialEq for HeaderKey {
    /// Two keys are equal when their names are equal but for letter case.
    fn eq(&self, other: &HeaderKey) -> (b: bool) {
        self.same(other)
    }
}

impl Eq for HeaderKey {

}

impl vstd::std_specs::cmp::PartialEqSpecImpl for HeaderKey {
    open spec fn obeys_eq_spec() -> bool {
        true
    }

    open spec fn eq_spec(&self, other: &HeaderKey) -> bool {
        eq_ignore_case(self.name(), other.name())
    }
}

/// A header collection.
#[derive(Debug)]
pub struct Headers {
    order: Vec<HeaderKey>,
    values: Vec<String>,
}

impl View for Headers {
    type V = HeaderList;

    closed spec fn view(&self) -> HeaderList {
        Seq::new(self.order@.len(), |i: int| (self.order@[i].name(), self.values@[i]@))
    }
}

impl Headers {
    #[verifier::type_invariant]
    spec fn well_formed(self) -> bool {
        &&& self.order@.len() == self.values@.len()
        &&& distinct_names(self@)
    }

    /// The empty collection.
    pub fn new() -> (headers: Headers)
        ensures
            headers@ == Seq::<(Seq<char>, Seq<char>)>::empty(),
            distinct_names(headers@),
    {
        let headers = Headers { order: Vec::new(), values: Vec::new() };
        headers
    }

    /// The number of headers. No two of them share a name, whatever the
    /// letter case.
    pub fn len(&self) -> (n: usize)
        ensures
            n == self@.len(),
            distinct_names(self@),
    {
        proof {
            use_type_invariant(self);
        }
        self.order.len()
    }

    /// The index of the entry whose lower-case name is `folded`.
    fn index_of(&self, folded: &[char], Ghost(name): Ghost<Seq<char>>) -> (r: Option<usize>)
        requires
            folded@ == lower(name),
        ensures
            match r {
                Some(i) => position(self@, name) == Some(i as int) && i < self@.len(),
                None => position(self@, name).is_none(),
            },
    {
        let mut i: usize = 0;
        while i < self.order.len()
            invariant
                i <= self.order@.len(),
                self@.len() == self.order@.len(),
                folded@ == lower(name),
                position(self@, name) == position_from(self@, name, i as int),
            decreases self.order@.len() - i,
        {
            if self.order[i].matches(folded) {
                return Some(i);
            }
            i = i + 1;
        }
        None
    }

    /// The value stored under `key`, whatever the letter case of `key`.
    pub fn get(&self, key: &str) -> (value: Option<&String>)
        ensures
            match value {
                Some(v) => lookup(self@, key@) == Some(v@),
                None => lookup(self@, key@).is_none(),
            },
    {
        proof {
            use_type_invariant(self);
        }
        let chars = chars_of(key);
        let folded = to_lower(chars.as_slice());
        match self.index_of(folded.as_slice(), Ghost(key@)) {
            Some(i) => Some(&self.values[i]),
            None => None,
        }
    }

    /// Stores `value` under `key` and returns the value that `key` had. A
    /// name that is already there, whatever the letter case, keeps its
    /// place and its first casing.
    pub fn insert(&mut self, key: &str, value: &str) -> (previous: Option<String>)
        ensures
            final(self)@ == store(old(self)@, key@, value@),
            distinct_names(final(self)@),
            match previous {
                Some(v) => lookup(old(self)@, key@) == Some(v@),
                None => lookup(old(self)@, key@).is_none(),
            },
    {
        proof {
            use_type_invariant(&*self);
        }
        let chars = chars_of(key);
        let folded = to_lower(chars.as_slice());
        let found = self.index_of(folded.as_slice(), Ghost(key@));
        let mut taken = Headers::new();
        core::mem::swap(self, &mut taken);
        let Headers { mut order, mut values } = taken;
        let previous = match found {
            Some(i) => {
                let previous = values[i].clone();
                values.set(i, String::from_str(value));
                Some(previous)
            },
            None => {
                proof {
                    lemma_position_from(old(self)@, key@, 0);
                }
                order.push(HeaderKey::new(String::from_str(key)));
                values.push(String::from_str(value));
                None
            },
        };
        let ghost stored = Seq::new(order@.len(), |i: int| (order@[i].name(), values@[i]@));
        proof {
            assert(stored =~= store(old(self)@, key@, value@));
        }
        *self = Headers { order, values };
        previous
    }

    /// Reads a header block: lines separated by line terminators, each a
    /// name, a colon and a value. The lines are stored in order, so a name
    /// that comes twice keeps its first place and its last value. A line
    /// without a colon is refused with `400 Bad Request`.
    pub fn parse(headers: &str) -> (parsed: Result<Headers, StatusCode>)
        ensures
            match parsed {
                Ok(h) => parse_block(headers@) == Some(h@) && distinct_names(h@),
                Err(status) => parse_block(headers@).is_none() && status == StatusCode::BadRequest,
            },
    {
        let chars = chars_of(headers);
        let block: &[char] = chars.as_slice();
        let terminator: Vec<char> = vec!['\r', '\n'];
        let mut map = Headers::new();
        let mut from: usize = 0;
        loop
            invariant_except_break
                parse_block(headers@) == parse_block_from(block@, from as int, map@),
            invariant
                block@ == headers@,
                terminator@ == crlf(),
                from <= block@.len(),
                distinct_names(map@),
            ensures
                parse_block(headers@) == Some(map@),
                distinct_names(map@),
            decreases block@.len() - from,
        {
            let length: usize = block.len();
            let found = find_in(block, terminator.as_slice(), from);
            let end: usize = match found {
                Some(end) => end,
                None => length,
            };
            proof {
                lemma_find_from(block@, crlf(), from as int);
            }
            let line = vstd::slice::slice_subrange(block, from, end);
            let (colon, start, stop) = match split_line(line) {
                Some(parts) => parts,
                None => {
                    return Err(StatusCode::BadRequest);
                },
            };
            proof {
                assert(line@.subrange(0, colon as int) =~= headers@.subrange(
                    from as int,
                    from + colon,
                ));
                assert(line@.subrange(colon + 1, line@.len() as int).subrange(
                    start as int,
                    stop as int,
                ) =~= headers@.subrange(from + colon + 1 + start, from + colon + 1 + stop));
            }
            let name = piece(headers, from, from + colon);
            let value = piece(headers, from + colon + 1 + start, from + colon + 1 + stop);
            map.insert(name.as_str(), value.as_str());
            if found.is_none() {
                break;
            }
            from = end + 2;
        }
        Ok(map)
    }

    /// The wire form of the collection: for each name, in insertion order
    /// and in its first casing, a line with the name, a colon and a space,
    /// the value and the line terminator. Empty for an empty collection.
    pub fn to_string(&self) -> (wire: String)
        ensures
            wire@ == serialize(self@),
    {
        proof {
            use_type_invariant(self);
            assert(self@.subrange(0, self@.len() as int) =~= self@);
        }
        let mut wire = String::new();
        let mut i: usize = 0;
        while i < self.order.len()
            invariant
                i <= self.order@.len(),
                self.order@.len() == self.values@.len(),
                self@.len() == self.order@.len(),
                wire@ + serialize(self@.subrange(i as int, self@.len() as int)) == serialize(self@),
            decreases self.order@.len() - i,
        {
            let ghost rest = self@.subrange(i as int, self@.len() as int);
            wire.append(self.order[i].as_str());
            wire.append(": ");
            wire.append(self.values[i].as_str());
            wire.append("\r\n");
            proof {
                reveal_strlit(": ");
                reveal_strlit("\r\n");
                assert(rest.drop_first() =~= self@.subrange(i + 1, self@.len() as int));
            }
            i = i + 1;
        }
        wire
    }
}

/// The index of the first colon of `line`, and the bounds, within the text
/// after that colon, of the value without the whitespace around it.
fn split_line(line: &[char]) -> (r: Option<(usize, usize, usize)>)
    ensures
        match r {
            Some((colon, start, stop)) => {
                &&& colon < line@.len()
                &&& start <= stop <= line@.len() - colon - 1
                &&& parse_line(line@) == Some(
                    (
                        line@.subrange(0, colon as int),
                        line@.subrange(colon + 1, line@.len() as int).subrange(
                            start as int,
                            stop as int,
                        ),
                    ),
                )
            },
            None => parse_line(line@).is_none(),
        },
{
    let pattern: Vec<char> = vec![':'];
    assert(pattern@ =~= seq![':']);
    match find_in(line, pattern.as_slice(), 0) {
        Some(colon) => {
            proof {
                lemma_find_from(line@, seq![':'], 0);
            }
            let length: usize = line.len();
            let after = vstd::slice::slice_subrange(line, colon + 1, length);
            let (start, stop) = trim_bounds(after);
            Some((colon, start, stop))
        },
        None => None,
    }
}

/// A name's position depends only on its lower-case form.
pub proof fn lemma_position_ignores_case(list: HeaderList, a: Seq<char>, b: Seq<char>, i: int)
    requires
        eq_ignore_case(a, b),
    ensures
        position_from(list, a, i) == position_from(list, b, i),
    decreases list.len() - i,
{
    if 0 <= i < list.len() && !eq_ignore_case(list[i].0, a) {
        lemma_position_ignores_case(list, a, b, i + 1);
    }
}

/// Lookup is case-insensitive: once `value` is stored under `name`, a lookup
/// by any spelling of `name` that differs only in letter case finds `value`;
/// so do lookups by `name` itself, by its upper-case form and by its
/// lower-case form.
pub proof fn law_lookup_ignores_case(
    list: HeaderList,
    name: Seq<char>,
    value: Seq<char>,
    query: Seq<char>,
)
    requires
        eq_ignore_case(query, name),
    ensures
        lookup(store(list, name, value), query) == Some(value),
        lookup(store(list, name, value), name) == Some(value),
        lookup(store(list, name, value), crate::text::upper(name)) == Some(value),
        lookup(store(list, name, value), lower(name)) == Some(value),
{
    let stored = store(list, name, value);
    lemma_position_from(list, name, 0);
    lemma_position_from(stored, name, 0);
    match position(list, name) {
        Some(i) => {
            assert(stored[i].0 == list[i].0);
            assert forall|j: int| 0 <= j < i implies !eq_ignore_case(
                (#[trigger] stored[j]).0,
                name,
            ) by {
                assert(stored[j] == list[j]);
            }
            assert(position(stored, name) == Some(i));
        },
        None => {
            let last = list.len() as int;
            assert(stored[last].0 == name);
            assert forall|j: int| 0 <= j < last implies !eq_ignore_case(
                (#[trigger] stored[j]).0,
                name,
            ) by {
                assert(stored[j] == list[j]);
            }
            assert(position(stored, name) == Some(last));
        },
    }
    assert(lookup(stored, name) == Some(value));
    crate::text::lemma_case_folding(name);
    lemma_position_ignores_case(stored, query, name, 0);
    lemma_position_ignores_case(stored, crate::text::upper(name), name, 0);
    lemma_position_ignores_case(stored, lower(name), name, 0);
}

/// Order is stable: storing a value under a name that is already there
/// changes that entry's value and nothing else; every name keeps its place
/// and its first casing.
pub proof fn law_overwrite_keeps_order(list: HeaderList, name: Seq<char>, value: Seq<char>)
    requires
        position(list, name).is_some(),
    ensures
        store(list, name, value).len() == list.len(),
        forall|j: int|
            0 <= j < list.len() ==> (#[trigger] store(list, name, value)[j]).0 == list[j].0,
        forall|j: int|
            0 <= j < list.len() ==> (#[trigger] store(list, name, value)[j]).1 == if Some(j)
                == position(list, name) {
                value
            } else {
                list[j].1
            },
{
    lemma_position_from(list, name, 0);
}

/// Storing a value under a new name adds the entry at the end and leaves
/// the entries before it as they were.
pub proof fn law_new_name_goes_last(list: HeaderList, name: Seq<char>, value: Seq<char>)
    requires
        position(list, name).is_none(),
    ensures
        store(list, name, value) == list.push((name, value)),
{
}

/// Storing keeps the names distinct.
pub proof fn law_store_keeps_names_distinct(list: HeaderList, name: Seq<char>, value: Seq<char>)
    requires
        distinct_names(list),
    ensures
        distinct_names(store(list, name, value)),
{
    lemma_position_from(list, name, 0);
    let stored = store(list, name, value);
    assert forall|i: int, j: int| 0 <= i < j < stored.len() implies !eq_ignore_case(
        (#[trigger] stored[i]).0,
        (#[trigger] stored[j]).0,
    ) by {
        if j < list.len() {
            assert(stored[i].0 == list[i].0);
            assert(stored[j].0 == list[j].0);
        } else {
            assert(stored[i] == list[i]);
        }
    }
}

/// Insertion order decides the wire order: after three different names are
/// stored in the order `a`, `b`, `c` and the value of `b` is then
/// overwritten, the wire form holds the three lines in the order `a`, `b`,
/// `c`, with the new value of `b`.
pub proof fn law_order_stability(
    a: Seq<char>,
    b: Seq<char>,
    c: Seq<char>,
    value_a: Seq<char>,
    value_b: Seq<char>,
    value_c: Seq<char>,
    new_b: Seq<char>,
)
    requires
        !eq_ignore_case(a, b),
        !eq_ignore_case(a, c),
        !eq_ignore_case(b, c),
    ensures
        serialize(
            store(store(store(store(Seq::empty(), a, value_a), b, value_b), c, value_c), b, new_b),
        ) == header_line((a, value_a)) + header_line((b, new_b)) + header_line((c, value_c)),
{
    let l0: HeaderList = Seq::empty();
    let l1 = store(l0, a, value_a);
    assert(l1 =~= seq![(a, value_a)]);
    let l2 = store(l1, b, value_b);
    lemma_position_from(l1, b, 0);
    assert(l2 =~= seq![(a, value_a), (b, value_b)]);
    let l3 = store(l2, c, value_c);
    lemma_position_from(l2, c, 0);
    assert(l3 =~= seq![(a, value_a), (b, value_b), (c, value_c)]);
    let l4 = store(l3, b, new_b);
    lemma_position_from(l3, b, 0);
    assert(position(l3, b) == Some(1int));
    assert(l4 =~= seq![(a, value_a), (b, new_b), (c, value_c)]);
    let t1 = l4.drop_first();
    let t2 = t1.drop_first();
    let t3 = t2.drop_first();
    assert(t1 =~= seq![(b, new_b), (c, value_c)]);
    assert(t2 =~= seq![(c, value_c)]);
    assert(t3 =~= Seq::<(Seq<char>, Seq<char>)>::empty());
    assert(serialize(t3) =~= Seq::<char>::empty());
    assert(serialize(t2) =~= header_line((c, value_c)));
    assert(serialize(t1) =~= header_line((b, new_b)) + header_line((c, value_c)));
    assert(serialize(l4) =~= header_line((a, value_a)) + header_line((b, new_b)) + header_line(
        (c, value_c),
    ));
}

} // verus!
