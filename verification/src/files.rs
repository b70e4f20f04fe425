//! The files of one export, in memory: each name once, in the order of its
//! bytes.

use vstd::prelude::*;
use vstd::slice::slice_to_vec;
#[allow(unused_imports)]
use vstd::utf8;

#[allow(unused_imports)]
use crate::procedure;
use crate::text;

verus! {

/// What files hold, by name.
pub type FilesView = Map<Seq<char>, Seq<u8>>;

/// Whether one run of bytes sorts before another: by the first byte that
/// differs, the shorter first where none does.
pub open spec fn before(one: Seq<u8>, other: Seq<u8>) -> bool
    decreases one.len(),
{
    if other.len() == 0 {
        false
    } else if one.len() == 0 {
        true
    } else if one[0] != other[0] {
        one[0] < other[0]
    } else {
        before(one.drop_first(), other.drop_first())
    }
}

/// Whether one name sorts before another: as its UTF-8 bytes do.
pub open spec fn sorts_before(one: Seq<char>, other: Seq<char>) -> bool {
    before(utf8::encode_utf8(one), utf8::encode_utf8(other))
}

/// Whether `names` are in order, each once.
pub open spec fn ascending(names: Seq<Seq<char>>) -> bool {
    forall|i: int, j: int|
        0 <= i < j < names.len() ==> sorts_before(#[trigger] names[i], #[trigger] names[j])
}

/// Whether `names` are the names of `files`, in order, each once.
pub open spec fn lists(names: Seq<Seq<char>>, files: FilesView) -> bool {
    &&& ascending(names)
    &&& forall|name: Seq<char>| #[trigger] files.dom().contains(name) <==> names.contains(name)
}

/// Whether the names of `files` can be put in order at all: there are only
/// so many.
pub open spec fn listable(files: FilesView) -> bool {
    exists|names: Seq<Seq<char>>| lists(names, files)
}

/// The names of `files`, in order.
pub open spec fn listing(files: FilesView) -> Seq<Seq<char>> {
    choose|names: Seq<Seq<char>>| lists(names, files)
}

/// No run of bytes sorts before itself.
proof fn before_is_strict(one: Seq<u8>)
    ensures
        !before(one, one),
    decreases one.len(),
{
    if one.len() > 0 {
        before_is_strict(one.drop_first());
    }
}

/// No name sorts before itself.
pub proof fn order_is_strict(name: Seq<char>)
    ensures
        !sorts_before(name, name),
{
    before_is_strict(utf8::encode_utf8(name));
}

/// What sorts before something sorts before all that comes after it.
proof fn before_goes_on(one: Seq<u8>, two: Seq<u8>, three: Seq<u8>)
    requires
        before(one, two),
        before(two, three),
    ensures
        before(one, three),
    decreases one.len(),
{
    if one.len() > 0 && two.len() > 0 && three.len() > 0 && one[0] == two[0] && two[0] == three[0] {
        before_goes_on(one.drop_first(), two.drop_first(), three.drop_first());
    }
}

/// Of two different runs of bytes one sorts before the other.
proof fn before_is_total(one: Seq<u8>, other: Seq<u8>)
    ensures
        one == other || before(one, other) || before(other, one),
    decreases one.len(),
{
    if one.len() > 0 && other.len() > 0 && one[0] == other[0] {
        before_is_total(one.drop_first(), other.drop_first());
        if one.drop_first() == other.drop_first() {
            assert(one =~= seq![one[0]] + one.drop_first());
            assert(other =~= seq![other[0]] + other.drop_first());
        }
    } else if one.len() == 0 && other.len() == 0 {
        assert(one =~= other);
    }
}

/// Names in order that are the same names are in the same order.
proof fn one_order(one: Seq<Seq<char>>, other: Seq<Seq<char>>)
    requires
        ascending(one),
        ascending(other),
        forall|name: Seq<char>| #[trigger] one.contains(name) <==> other.contains(name),
    ensures
        one == other,
    decreases one.len(),
{
    if one.len() == 0 {
        if other.len() > 0 {
            assert(other.contains(other[0]));
            assert(one.contains(other[0]));
        }
        assert(one =~= other);
    } else {
        assert(one.contains(one[0]));
        assert(other.len() > 0);
        assert(other.contains(other[0]));
        assert(one.contains(other[0]));
        let first = one[0];
        if first != other[0] {
            let i = choose|i: int| 0 <= i < one.len() && one[i] == other[0];
            let j = choose|j: int| 0 <= j < other.len() && other[j] == first;
            assert(sorts_before(one[0], one[i]));
            assert(sorts_before(other[0], other[j]));
            before_goes_on(
                utf8::encode_utf8(first),
                utf8::encode_utf8(other[0]),
                utf8::encode_utf8(first),
            );
            before_is_strict(utf8::encode_utf8(first));
        }
        let tail = one.drop_first();
        let others = other.drop_first();
        assert forall|name: Seq<char>| #[trigger]
            tail.contains(name) <==> others.contains(name) by {
            tails_agree(one, other, name);
            tails_agree(other, one, name);
        }
        one_order(tail, others);
        assert(one =~= seq![first] + tail);
        assert(other =~= seq![first] + others);
    }
}

/// Past the same first name, what one order names the other names.
proof fn tails_agree(one: Seq<Seq<char>>, other: Seq<Seq<char>>, name: Seq<char>)
    requires
        one.len() > 0,
        other.len() > 0,
        one[0] == other[0],
        ascending(one),
        forall|name: Seq<char>| #[trigger] one.contains(name) <==> other.contains(name),
    ensures
        one.drop_first().contains(name) ==> other.drop_first().contains(name),
{
    let tail = one.drop_first();
    if tail.contains(name) {
        let i = choose|i: int| 0 <= i < tail.len() && tail[i] == name;
        assert(one[i + 1] == name);
        assert(one.contains(name));
        let j = choose|j: int| 0 <= j < other.len() && other[j] == name;
        if j == 0 {
            assert(sorts_before(one[0], one[i + 1]));
            before_is_strict(utf8::encode_utf8(name));
        }
        assert(other.drop_first()[j - 1] == name);
    }
}

/// There is one way to list files.
pub proof fn listing_is(names: Seq<Seq<char>>, files: FilesView)
    requires
        lists(names, files),
    ensures
        listing(files) == names,
        files.dom().finite(),
{
    assert(files.dom() =~= names.to_set());
    vstd::seq_lib::seq_to_set_is_finite(names);
    let chosen = listing(files);
    assert(lists(chosen, files));
    assert forall|name: Seq<char>| #[trigger] names.contains(name) <==> chosen.contains(name) by {
        assert(files.dom().contains(name) <==> names.contains(name));
        assert(files.dom().contains(name) <==> chosen.contains(name));
    }
    one_order(names, chosen);
}

/// `names`, in order, with one more in its place.
spec fn with_name(names: Seq<Seq<char>>, name: Seq<char>) -> Seq<Seq<char>>
    decreases names.len(),
{
    if names.len() == 0 || sorts_before(name, names[0]) {
        seq![name] + names
    } else {
        seq![names[0]] + with_name(names.drop_first(), name)
    }
}

/// One more name in its place keeps the order.
proof fn with_name_ascends(names: Seq<Seq<char>>, name: Seq<char>)
    requires
        ascending(names),
        !names.contains(name),
    ensures
        ascending(with_name(names, name)),
        forall|other: Seq<char>| #[trigger]
            with_name(names, name).contains(other) <==> other == name || names.contains(other),
    decreases names.len(),
{
    let all = with_name(names, name);
    if names.len() == 0 || sorts_before(name, names[0]) {
        assert forall|i: int, j: int| 0 <= i < j < all.len() implies sorts_before(
            #[trigger] all[i],
            #[trigger] all[j],
        ) by {
            assert(all[j] == names[j - 1]);
            if i == 0 && j > 1 {
                before_goes_on(
                    utf8::encode_utf8(name),
                    utf8::encode_utf8(names[0]),
                    utf8::encode_utf8(names[j - 1]),
                );
            }
        }
        assert forall|other: Seq<char>| #[trigger] all.contains(other) <==> other == name
            || names.contains(other) by {
            assert(all[0] == name);
            if names.contains(other) {
                let i = choose|i: int| 0 <= i < names.len() && names[i] == other;
                assert(all[i + 1] == other);
            }
        }
    } else {
        let tail = names.drop_first();
        let rest = with_name(tail, name);
        assert forall|other: Seq<char>| #[trigger] tail.contains(other) implies names.contains(
            other,
        ) by {
            let i = choose|i: int| 0 <= i < tail.len() && tail[i] == other;
            assert(names[i + 1] == other);
        }
        with_name_ascends(tail, name);
        assert(names.contains(names[0]));
        text_order(name, names[0]);
        assert forall|i: int, j: int| 0 <= i < j < all.len() implies sorts_before(
            #[trigger] all[i],
            #[trigger] all[j],
        ) by {
            assert(all[j] == rest[j - 1]);
            assert(rest.contains(rest[j - 1]));
            if i == 0 && rest[j - 1] != name {
                let at = choose|at: int| 0 <= at < tail.len() && tail[at] == rest[j - 1];
                assert(names[at + 1] == rest[j - 1]);
            }
        }
        assert forall|other: Seq<char>| #[trigger] all.contains(other) <==> other == name
            || names.contains(other) by {
            assert(all[0] == names[0]);
            if rest.contains(other) {
                let i = choose|i: int| 0 <= i < rest.len() && rest[i] == other;
                assert(all[i + 1] == other);
            }
            if names.contains(other) && other != names[0] {
                let i = choose|i: int| 0 <= i < names.len() && names[i] == other;
                assert(tail[i - 1] == other);
            }
        }
    }
}

/// Files of which there are only so many can be listed.
pub proof fn finite_files_are_listable(files: FilesView)
    requires
        files.dom().finite(),
    ensures
        listable(files),
    decreases files.dom().len(),
{
    if files.dom().len() == 0 {
        assert(files.dom() =~= Set::empty());
        assert(lists(Seq::empty(), files));
    } else {
        let name = files.dom().choose();
        let rest = files.remove(name);
        assert(rest.dom() =~= files.dom().remove(name));
        finite_files_are_listable(rest);
        let names = listing(rest);
        assert(lists(names, rest));
        assert(!rest.dom().contains(name));
        with_name_ascends(names, name);
        let all = with_name(names, name);
        assert forall|other: Seq<char>| #[trigger] files.dom().contains(other) <==> all.contains(
            other,
        ) by {
            assert(rest.dom().contains(other) <==> names.contains(other));
        }
        assert(lists(all, files));
    }
}

/// Whether the bytes `one` sort before the bytes `other`.
fn is_before(one: &[u8], other: &[u8]) -> (is: bool)
    ensures
        is == before(one@, other@),
{
    let mut at: usize = 0;
    assert(one@.skip(0) =~= one@);
    assert(other@.skip(0) =~= other@);
    while at < one.len() && at < other.len()
        invariant
            at <= one@.len(),
            at <= other@.len(),
            before(one@, other@) == before(one@.skip(at as int), other@.skip(at as int)),
        decreases one@.len() - at,
    {
        assert(one@.skip(at as int).drop_first() =~= one@.skip(at as int + 1));
        assert(other@.skip(at as int).drop_first() =~= other@.skip(at as int + 1));
        if one[at] != other[at] {
            return one[at] < other[at];
        }
        at += 1;
    }
    at < other.len()
}

/// Files by name.
pub struct Files {
    entries: Vec<(String, Vec<u8>)>,
}

/// The name of an entry.
spec fn name_at(entries: Seq<(String, Vec<u8>)>, at: int) -> Seq<char> {
    entries[at].0@
}

/// The names of entries.
spec fn names_of(entries: Seq<(String, Vec<u8>)>) -> Seq<Seq<char>> {
    Seq::new(entries.len(), |i: int| name_at(entries, i))
}

/// What entries hold, by name.
spec fn held(entries: Seq<(String, Vec<u8>)>) -> FilesView {
    Map::new(
        |name: Seq<char>| names_of(entries).contains(name),
        |name: Seq<char>| entries[names_of(entries).index_of(name)].1@,
    )
}

/// What an entry holds is what its name gives.
proof fn held_at(entries: Seq<(String, Vec<u8>)>, at: int)
    requires
        ascending(names_of(entries)),
        0 <= at < entries.len(),
    ensures
        held(entries).dom().contains(name_at(entries, at)),
        held(entries)[name_at(entries, at)] == entries[at].1@,
{
    let names = names_of(entries);
    assert(names[at] == name_at(entries, at));
    assert(names.contains(names[at]));
    let found = names.index_of(names[at]);
    assert(names[found] == names[at]);
    if found < at {
        assert(sorts_before(names[found], names[at]));
        before_is_strict(utf8::encode_utf8(names[at]));
    } else if at < found {
        assert(sorts_before(names[at], names[found]));
        before_is_strict(utf8::encode_utf8(names[at]));
    }
}

impl View for Files {
    type V = FilesView;

    closed spec fn view(&self) -> FilesView {
        held(self.entries@)
    }
}

/// Where a name is, or would go, among entries in order.
spec fn is_place(entries: Seq<(String, Vec<u8>)>, name: Seq<char>, at: int) -> bool {
    &&& 0 <= at <= entries.len()
    &&& forall|i: int| 0 <= i < at ==> sorts_before(#[trigger] name_at(entries, i), name)
    &&& at < entries.len() ==> !sorts_before(name_at(entries, at), name)
}

/// A name that is not where it would go is nowhere.
proof fn held_in_place(entries: Seq<(String, Vec<u8>)>, name: Seq<char>, at: int)
    requires
        ascending(names_of(entries)),
        is_place(entries, name, at),
    ensures
        held(entries).dom().contains(name) <==> at < entries.len() && name_at(entries, at) == name,
        at < entries.len() && name_at(entries, at) != name ==> sorts_before(
            name,
            name_at(entries, at),
        ),
{
    let names = names_of(entries);
    if at < entries.len() {
        held_at(entries, at);
        text_order(name, name_at(entries, at));
    }
    if held(entries).dom().contains(name) {
        let found = choose|i: int| 0 <= i < names.len() && names[i] == name;
        assert(name_at(entries, found) == name);
        before_is_strict(utf8::encode_utf8(name));
        if at < found {
            assert(sorts_before(names[at], names[found]));
        }
    }
}

/// Of two different names one sorts before the other.
proof fn text_order(one: Seq<char>, other: Seq<char>)
    ensures
        one == other || sorts_before(one, other) || sorts_before(other, one),
{
    before_is_total(utf8::encode_utf8(one), utf8::encode_utf8(other));
    if utf8::encode_utf8(one) == utf8::encode_utf8(other) {
        text::encodings_differ(one, other);
    }
}

/// A new name put where it goes keeps the order and adds what it holds.
proof fn put_in_place(
    entries: Seq<(String, Vec<u8>)>,
    at: int,
    entry: (String, Vec<u8>),
)
    requires
        ascending(names_of(entries)),
        is_place(entries, entry.0@, at),
        !held(entries).dom().contains(entry.0@),
    ensures
        ascending(names_of(entries.insert(at, entry))),
        held(entries.insert(at, entry)) == held(entries).insert(entry.0@, entry.1@),
{
    let name = entry.0@;
    let now = entries.insert(at, entry);
    let names = names_of(entries);
    let all = names_of(now);
    held_in_place(entries, name, at);
    assert forall|i: int, j: int| 0 <= i < j < all.len() implies sorts_before(
        #[trigger] all[i],
        #[trigger] all[j],
    ) by {
        let from = if i < at { i } else { i - 1 };
        let to = if j < at { j } else { j - 1 };
        if i == at {
            assert(all[j] == names[to]);
            if to > at {
                assert(sorts_before(names[at], names[to]));
                before_goes_on(
                    utf8::encode_utf8(name),
                    utf8::encode_utf8(names[at]),
                    utf8::encode_utf8(names[to]),
                );
            }
        } else if j == at {
            assert(all[i] == name_at(entries, i));
        } else {
            assert(all[i] == names[from] && all[j] == names[to]);
        }
    }
    let grown = held(entries).insert(name, entry.1@);
    assert forall|other: Seq<char>|
        held(now).dom().contains(other) == #[trigger] grown.dom().contains(other) && (
        grown.dom().contains(other) ==> held(now)[other] == grown[other]) by {
        if held(now).dom().contains(other) {
            let i = choose|i: int| 0 <= i < all.len() && all[i] == other;
            held_at(now, i);
            if i != at {
                let from = if i < at { i } else { i - 1 };
                assert(name_at(entries, from) == other);
                held_at(entries, from);
            }
        } else if other == name {
            assert(all[at] == name);
            held_at(now, at);
        } else if held(entries).dom().contains(other) {
            let i = choose|i: int| 0 <= i < names.len() && names[i] == other;
            let to = if i < at { i } else { i + 1 };
            assert(all[to] == other);
            held_at(now, to);
        }
    }
    assert(held(now) =~= grown);
}

/// A name taken out keeps the order and takes away what it held.
proof fn take_from_place(entries: Seq<(String, Vec<u8>)>, at: int)
    requires
        ascending(names_of(entries)),
        0 <= at < entries.len(),
    ensures
        ascending(names_of(entries.remove(at))),
        held(entries.remove(at)) == held(entries).remove(name_at(entries, at)),
{
    let name = name_at(entries, at);
    let now = entries.remove(at);
    let names = names_of(entries);
    let left = names_of(now);
    assert forall|i: int, j: int| 0 <= i < j < left.len() implies sorts_before(
        #[trigger] left[i],
        #[trigger] left[j],
    ) by {
        let from = if i < at { i } else { i + 1 };
        let to = if j < at { j } else { j + 1 };
        assert(left[i] == names[from] && left[j] == names[to]);
    }
    let shrunk = held(entries).remove(name);
    assert forall|other: Seq<char>|
        held(now).dom().contains(other) == #[trigger] shrunk.dom().contains(other) && (
        shrunk.dom().contains(other) ==> held(now)[other] == shrunk[other]) by {
        if held(now).dom().contains(other) {
            let i = choose|i: int| 0 <= i < left.len() && left[i] == other;
            let from = if i < at { i } else { i + 1 };
            assert(name_at(entries, from) == other);
            held_at(now, i);
            held_at(entries, from);
            before_is_strict(utf8::encode_utf8(name));
            if from < at {
                assert(sorts_before(names[from], names[at]));
            } else {
                assert(sorts_before(names[at], names[from]));
            }
        } else if other != name && held(entries).dom().contains(other) {
            let i = choose|i: int| 0 <= i < names.len() && names[i] == other;
            let to = if i < at { i } else { i - 1 };
            assert(left[to] == other);
            held_at(now, to);
        }
    }
    assert(held(now) =~= shrunk);
}

impl Files {
    #[verifier::type_invariant]
    spec fn well_formed(self) -> bool {
        ascending(names_of(self.entries@))
    }

    /// No files.
    pub fn new() -> (files: Self)
        ensures
            files@ == Map::<Seq<char>, Seq<u8>>::empty(),
    {
        let files = Files { entries: Vec::new() };
        assert(files@ =~= Map::empty()) by {
            assert(names_of(files.entries@).len() == 0);
        }
        files
    }

    /// Where `name` is, or would go.
    fn place(&self, name: &str) -> (at: usize)
        ensures
            is_place(self.entries@, name@, at as int),
    {
        let mut at: usize = 0;
        while at < self.entries.len()
            invariant
                at <= self.entries@.len(),
                forall|i: int|
                    0 <= i < at ==> sorts_before(#[trigger] name_at(self.entries@, i), name@),
            decreases self.entries@.len() - at,
        {
            if !is_before(self.entries[at].0.as_str().as_bytes(), name.as_bytes()) {
                return at;
            }
            at += 1;
        }
        at
    }

    /// What the file of this name holds, where there is one.
    pub fn get(&self, name: &str) -> (found: Option<&Vec<u8>>)
        ensures
            found is Some <==> self@.dom().contains(name@),
            found is Some ==> found->Some_0@ == self@[name@],
    {
        proof {
            use_type_invariant(self);
        }
        let at = self.place(name);
        proof {
            held_in_place(self.entries@, name@, at as int);
        }
        if at < self.entries.len() && text::same_text(self.entries[at].0.as_str(), name) {
            proof {
                held_at(self.entries@, at as int);
            }
            Some(&self.entries[at].1)
        } else {
            None
        }
    }

    /// Whether there is a file of this name.
    pub fn contains(&self, name: &str) -> (found: bool)
        ensures
            found <==> self@.dom().contains(name@),
    {
        self.get(name).is_some()
    }

    /// Take the file of this name away, where there is one: what it held.
    pub fn remove(&mut self, name: &str) -> (removed: Option<Vec<u8>>)
        ensures
            removed is Some <==> old(self)@.dom().contains(name@),
            removed is Some ==> removed->Some_0@ == old(self)@[name@],
            final(self)@ == old(self)@.remove(name@),
    {
        proof {
            use_type_invariant(&*self);
        }
        let at = self.place(name);
        proof {
            held_in_place(self.entries@, name@, at as int);
        }
        if at < self.entries.len() && text::same_text(self.entries[at].0.as_str(), name) {
            proof {
                held_at(self.entries@, at as int);
                take_from_place(self.entries@, at as int);
            }
            let mut entries: Vec<(String, Vec<u8>)> = Vec::new();
            core::mem::swap(&mut entries, &mut self.entries);
            let (_, bytes) = entries.remove(at);
            *self = Files { entries };
            Some(bytes)
        } else {
            assert(self@.remove(name@) =~= self@);
            None
        }
    }

    /// Put a file, in place of the one of its name where there is one.
    pub fn insert(&mut self, name: String, bytes: Vec<u8>)
        ensures
            final(self)@ == old(self)@.insert(name@, bytes@),
    {
        self.remove(name.as_str());
        proof {
            use_type_invariant(&*self);
        }
        let at = self.place(name.as_str());
        proof {
            put_in_place(self.entries@, at as int, (name, bytes));
            assert(old(self)@.remove(name@).insert(name@, bytes@) =~= old(self)@.insert(
                name@,
                bytes@,
            ));
        }
        let mut entries: Vec<(String, Vec<u8>)> = Vec::new();
        core::mem::swap(&mut entries, &mut self.entries);
        entries.insert(at, (name, bytes));
        *self = Files { entries };
    }

    /// The names, in order.
    pub fn names(&self) -> (names: Vec<String>)
        ensures
            self@.dom().finite(),
            procedure::texts(names@) == listing(self@),
    {
        proof {
            use_type_invariant(self);
        }
        let mut names: Vec<String> = Vec::new();
        let mut at: usize = 0;
        while at < self.entries.len()
            invariant
                at <= self.entries@.len(),
                procedure::texts(names@) =~= names_of(self.entries@).take(at as int),
            decreases self.entries@.len() - at,
        {
            let name = self.entries[at].0.clone();
            let ghost before = procedure::texts(names@);
            names.push(name);
            at += 1;
            proof {
                assert(procedure::texts(names@) =~= before.push(name@));
                assert(names_of(self.entries@).take(at as int) =~= before.push(name@));
            }
        }
        proof {
            let all = names_of(self.entries@);
            assert(all.take(at as int) =~= all);
            listing_is(all, self@);
        }
        names
    }

    /// How many files there are.
    pub fn len(&self) -> (count: usize)
        ensures
            self@.dom().finite(),
            count == listing(self@).len(),
    {
        proof {
            use_type_invariant(self);
            listing_is(names_of(self.entries@), self@);
        }
        self.entries.len()
    }

    /// Whether there are no files.
    pub fn is_empty(&self) -> (empty: bool)
        ensures
            empty <==> self@ == Map::<Seq<char>, Seq<u8>>::empty(),
    {
        proof {
            use_type_invariant(self);
            if self.entries@.len() == 0 {
                assert(self@ =~= Map::empty());
            } else {
                held_at(self.entries@, 0);
            }
        }
        self.entries.is_empty()
    }
}

impl Clone for Files {
    fn clone(&self) -> (copy: Self)
        ensures
            copy@ == self@,
    {
        proof {
            use_type_invariant(self);
        }
        let mut entries: Vec<(String, Vec<u8>)> = Vec::new();
        let mut at: usize = 0;
        while at < self.entries.len()
            invariant
                at <= self.entries@.len(),
                entries@.len() == at,
                forall|i: int|
                    0 <= i < at ==> (#[trigger] entries@[i]).0@ == self.entries@[i].0@
                        && entries@[i].1@ == self.entries@[i].1@,
            decreases self.entries@.len() - at,
        {
            let (name, bytes) = &self.entries[at];
            entries.push((name.clone(), slice_to_vec(bytes.as_slice())));
            at += 1;
        }
        assert(names_of(entries@) =~= names_of(self.entries@));
        let copy = Files { entries };
        assert(copy@ =~= self@) by {
            let names = names_of(self.entries@);
            assert forall|name: Seq<char>| #[trigger] names.contains(name) implies copy@[name]
                == self@[name] by {
                assert(0 <= names.index_of(name) < names.len());
            }
        }
        copy
    }
}

/// Whether two runs of bytes are the same up to a place, and one sorts before
/// the other there: it ends and the other goes on, or its byte is the lesser.
pub open spec fn parts_at(one: Seq<u8>, other: Seq<u8>, at: int) -> bool {
    &&& 0 <= at <= one.len()
    &&& at < other.len()
    &&& forall|i: int| 0 <= i < at ==> #[trigger] one[i] == other[i]
    &&& at == one.len() || one[at] < other[at]
}

/// One run of bytes sorts before another just where the two part somewhere,
/// and it is the lesser there.
pub proof fn order_is_by_the_first_difference(one: Seq<u8>, other: Seq<u8>)
    ensures
        before(one, other) <==> exists|at: int| parts_at(one, other, at),
    decreases one.len(),
{
    if one.len() > 0 && other.len() > 0 && one[0] == other[0] {
        let (less, more) = (one.drop_first(), other.drop_first());
        order_is_by_the_first_difference(less, more);
        if before(one, other) {
            let at = choose|at: int| parts_at(less, more, at);
            assert forall|i: int| 0 <= i < at + 1 implies #[trigger] one[i] == other[i] by {
                if i > 0 {
                    assert(less[i - 1] == more[i - 1]);
                }
            }
            assert(parts_at(one, other, at + 1));
        }
        if exists|at: int| parts_at(one, other, at) {
            let at = choose|at: int| parts_at(one, other, at);
            assert forall|i: int| 0 <= i < at - 1 implies #[trigger] less[i] == more[i] by {
                assert(one[i + 1] == other[i + 1]);
            }
            assert(parts_at(less, more, at - 1));
        }
    } else if before(one, other) {
        assert(parts_at(one, other, 0));
    }
}

/// Names sort as their UTF-8 bytes do.
pub proof fn names_sort_by_their_bytes(one: Seq<char>, other: Seq<char>)
    ensures
        sorts_before(one, other) <==> exists|at: int|
            parts_at(utf8::encode_utf8(one), utf8::encode_utf8(other), at),
{
    order_is_by_the_first_difference(utf8::encode_utf8(one), utf8::encode_utf8(other));
}

} // verus!
