//! The message-type registry: assigns each registered message type its [`MType`]
//! and delivery [`Guarantees`].
//!
//! A message type is identified by a [`TypeKey`], a number that stands for one Rust type
//! (or one custom wire format) and that every peer derives the same way.

use vstd::prelude::*;
use crate::net::MType;

verus! {

/// A number that identifies one registered message type.
pub type TypeKey = u64;

/// The delivery guarantee of a message type.
#[derive(Copy, Clone, PartialEq, Eq, Structural, Debug, Hash)]
pub enum Guarantees {
    /// Never saved, never ordered.
    Unreliable,
    /// Only the newest message (by ordering number) is delivered.
    UnreliableNewest,
    /// Saved and resent until acknowledged; not ordered.
    Reliable,
    /// Saved and resent until acknowledged; delivered in order.
    ReliableOrdered,
    /// Saved until acknowledged; a newer message of the same type replaces the saved one.
    ReliableNewest,
}

impl Guarantees {
    /// Whether messages with this guarantee are saved and resent.
    pub open spec fn is_reliable(self) -> bool {
        self is Reliable || self is ReliableOrdered || self is ReliableNewest
    }

    /// Whether messages with this guarantee are saved and resent.
    pub fn reliable(&self) -> (r: bool)
        ensures
            r == self.is_reliable(),
    {
        matches!(self, Guarantees::Reliable | Guarantees::ReliableOrdered | Guarantees::ReliableNewest)
    }

    /// Whether messages with this guarantee are never saved.
    pub fn unreliable(&self) -> (r: bool)
        ensures
            r == !self.is_reliable(),
    {
        matches!(self, Guarantees::Unreliable | Guarantees::UnreliableNewest)
    }
}

/// The possible errors when registering a type.
#[derive(Copy, Clone, PartialEq, Eq, Structural, Debug, Hash)]
pub enum MsgRegError {
    /// The type was already registered.
    TypeAlreadyRegistered,
    /// The identifier string was already used.
    NonUniqueIdentifier,
    /// The table holds more types than a message type number can count.
    TooManyTypes,
}

impl MsgRegError {
    /// A description of the error.
    pub fn describe(&self) -> (r: &'static str)
        ensures
            *self is TypeAlreadyRegistered ==> r@ == "Type was already registered."@,
            *self is NonUniqueIdentifier ==> r@ == "The identifier was not unique."@,
    {
        match self {
            MsgRegError::TypeAlreadyRegistered => "Type was already registered.",
            MsgRegError::NonUniqueIdentifier => "The identifier was not unique.",
            MsgRegError::TooManyTypes => "Too many types were registered.",
        }
    }
}

/// The [`MType`] of the connection message.
pub const CONNECTION_M_TYPE: MType = 1;
/// The [`MType`] of the acceptance response.
pub const ACCEPT_M_TYPE: MType = 2;
/// The [`MType`] of the rejection response.
pub const REJECT_M_TYPE: MType = 3;
/// The [`MType`] of the disconnection message.
pub const DISCONNECT_M_TYPE: MType = 4;
/// The [`MType`] of ping messages.
pub const PING_M_TYPE: MType = 5;
/// The [`MType`] of the dedicated acknowledgement message.
pub const ACK_M_TYPE: MType = 6;
/// The first [`MType`] given to a user type.
pub const FIRST_USER_M_TYPE: MType = 7;

/// A map from [`TypeKey`] to [`MType`], held in a `hashbrown` map.
#[verifier::external_body]
pub struct TypeIndex {
    map: hashbrown::HashMap<TypeKey, MType>,
}

/// What a [`TypeIndex`] holds.
pub uninterp spec fn type_index_map(t: TypeIndex) -> Map<TypeKey, MType>;

/// Relies on `hashbrown::HashMap::new`: the new map is empty.
#[verifier::external_body]
fn type_index_new() -> (r: TypeIndex)
    ensures
        type_index_map(r).dom() == Set::<TypeKey>::empty(),
{
    TypeIndex { map: hashbrown::HashMap::new() }
}

/// Relies on `hashbrown::HashMap::insert`: afterwards `k` maps to `v`, other keys unchanged.
#[verifier::external_body]
fn type_index_insert(t: &mut TypeIndex, k: TypeKey, v: MType) -> (r: Option<MType>)
    ensures
        type_index_map(*final(t)) == type_index_map(*old(t)).insert(k, v),
        r == (if type_index_map(*old(t)).contains_key(k) {
            Some(type_index_map(*old(t))[k])
        } else {
            None::<MType>
        }),
{
    t.map.insert(k, v)
}

/// Relies on `hashbrown::HashMap::get`: the value of `k`, if `k` is a key.
#[verifier::external_body]
fn type_index_get(t: &TypeIndex, k: TypeKey) -> (r: Option<MType>)
    ensures
        r == (if type_index_map(*t).contains_key(k) {
            Some(type_index_map(*t)[k])
        } else {
            None::<MType>
        }),
{
    t.map.get(&k).copied()
}

/// Whether `k` is the key of some entry of `s`.
pub open spec fn has_key(s: Seq<(TypeKey, Guarantees)>, k: TypeKey) -> bool {
    exists|i: int| 0 <= i < s.len() && s[i].0 == k
}

fn find_key(table: &Vec<(TypeKey, Guarantees)>, tid: TypeKey) -> (r: bool)
    ensures
        r == has_key(table@, tid),
{
    let mut i: usize = 0;
    while i < table.len()
        invariant
            i <= table.len(),
            forall|j: int| 0 <= j < i ==> table@[j].0 != tid,
        decreases table.len() - i,
    {
        if table[i].0 == tid {
            return true;
        }
        i += 1;
    }
    false
}

/// Collects the message types to send over the network, in registration order.
///
/// All peers must register the same types in the same order.
/// Where that cannot be arranged, use [`SortedMsgTable`].
#[derive(Clone, Debug)]
pub struct MsgTable {
    table: Vec<(TypeKey, Guarantees)>,
}

impl View for MsgTable {
    type V = Seq<(TypeKey, Guarantees)>;

    closed spec fn view(&self) -> Seq<(TypeKey, Guarantees)> {
        self.table@
    }
}

/// The rows of a built table, indexed by [`MType`]: slot 0 is unused, slots 1 to 6 hold
/// the control types, and the user types follow in the given order.
pub open spec fn built_rows(
    c: TypeKey,
    a: TypeKey,
    r: TypeKey,
    d: TypeKey,
    user: Seq<(TypeKey, Guarantees)>,
) -> Seq<(Option<TypeKey>, Guarantees)> {
    seq![
        (None::<TypeKey>, Guarantees::Unreliable),
        (Some(c), Guarantees::Reliable),
        (Some(a), Guarantees::Reliable),
        (Some(r), Guarantees::Reliable),
        (Some(d), Guarantees::Reliable),
        (None::<TypeKey>, Guarantees::Unreliable),
        (None::<TypeKey>, Guarantees::Unreliable),
    ] + user.map_values(|e: (TypeKey, Guarantees)| (Some(e.0), e.1))
}

/// The guarantee of the fixed slot `m`: the connection, acceptance, rejection and
/// disconnection messages are reliable; the unused slot, pings and acknowledgements are not.
pub open spec fn control_guarantees(m: int) -> Guarantees {
    if 1 <= m <= 4 {
        Guarantees::Reliable
    } else {
        Guarantees::Unreliable
    }
}

/// Whether the control keys and the user keys are all distinct.
pub open spec fn keys_distinct(
    c: TypeKey,
    a: TypeKey,
    r: TypeKey,
    d: TypeKey,
    user: Seq<(TypeKey, Guarantees)>,
) -> bool {
    &&& c != a && c != r && c != d && a != r && a != d && r != d
    &&& !has_key(user, c) && !has_key(user, a) && !has_key(user, r) && !has_key(user, d)
    &&& forall|i: int, j: int|
        0 <= i < j < user.len() ==> user[i].0 != user[j].0
}

impl MsgTable {
    /// Creates an empty [`MsgTable`].
    pub fn new() -> (r: Self)
        ensures
            r@ == Seq::<(TypeKey, Guarantees)>::empty(),
    {
        MsgTable { table: Vec::new() }
    }

    /// The number of registered types.
    pub fn len(&self) -> (r: usize)
        ensures
            r == self@.len(),
    {
        self.table.len()
    }

    /// Registers a message type with its own serialization, under the key `tid`.
    /// Fails with `TypeAlreadyRegistered` when `tid` is already registered.
    pub fn register_custom(&mut self, tid: TypeKey, guarantees: Guarantees) -> (r: Result<
        (),
        MsgRegError,
    >)
        ensures
            has_key(old(self)@, tid) ==> r == Err::<(), MsgRegError>(
                MsgRegError::TypeAlreadyRegistered,
            ) && final(self)@ == old(self)@,
            !has_key(old(self)@, tid) ==> r is Ok && final(self)@ == old(self)@.push(
                (tid, guarantees),
            ),
    {
        let reg = self.get_custom_registration(tid, guarantees);
        match reg {
            Ok(e) => {
                self.table.push(e);
                Ok(())
            },
            Err(e) => Err(e),
        }
    }

    /// The registration row for `tid`, or `TypeAlreadyRegistered`.
    pub fn get_custom_registration(&self, tid: TypeKey, guarantees: Guarantees) -> (r: Result<
        (TypeKey, Guarantees),
        MsgRegError,
    >)
        ensures
            r == (if has_key(self@, tid) {
                Err::<(TypeKey, Guarantees), MsgRegError>(MsgRegError::TypeAlreadyRegistered)
            } else {
                Ok((tid, guarantees))
            }),
    {
        if find_key(&self.table, tid) {
            return Err(MsgRegError::TypeAlreadyRegistered);
        }
        Ok((tid, guarantees))
    }

    /// Builds the table, with the connection (`c`), acceptance (`a`), rejection (`r`) and
    /// disconnection (`d`) types in their fixed slots, the ping and acknowledgement messages
    /// after them, and the registered types from [`FIRST_USER_M_TYPE`] on.
    /// Fails with `TooManyTypes` when the rows would not fit a `usize` count, else with
    /// `TypeAlreadyRegistered` when a control key repeats or is registered.
    pub fn build(self, c: TypeKey, a: TypeKey, r: TypeKey, d: TypeKey) -> (res: Result<
        MsgTableParts,
        MsgRegError,
    >)
        ensures
            self@.len() + 7 > usize::MAX ==> res == Err::<MsgTableParts, MsgRegError>(
                MsgRegError::TooManyTypes,
            ),
            self@.len() + 7 <= usize::MAX && keys_distinct(c, a, r, d, self@) ==> res is Ok
                && res->Ok_0.wf() && res->Ok_0@ == built_rows(c, a, r, d, self@),
            self@.len() + 7 <= usize::MAX && !keys_distinct(c, a, r, d, self@) ==> res == Err::<
                MsgTableParts,
                MsgRegError,
            >(MsgRegError::TypeAlreadyRegistered),
    {
        if self.table.len() > usize::MAX - 7 {
            return Err(MsgRegError::TooManyTypes);
        }
        if !control_keys_free(&self.table, c, a, r, d) || !keys_unique(&self.table) {
            return Err(MsgRegError::TypeAlreadyRegistered);
        }
        Ok(MsgTableParts::from_rows(c, a, r, d, &self.table))
    }
}

fn control_keys_free(table: &Vec<(TypeKey, Guarantees)>, c: TypeKey, a: TypeKey, r: TypeKey, d: TypeKey) -> (res: bool)
    ensures
        res == (c != a && c != r && c != d && a != r && a != d && r != d && !has_key(table@, c)
            && !has_key(table@, a) && !has_key(table@, r) && !has_key(table@, d)),
{
    c != a && c != r && c != d && a != r && a != d && r != d && !find_key(table, c) && !find_key(
        table,
        a,
    ) && !find_key(table, r) && !find_key(table, d)
}

fn keys_unique(table: &Vec<(TypeKey, Guarantees)>) -> (res: bool)
    ensures
        res == (forall|i: int, j: int|
            0 <= i < j < table@.len() ==> table@[i].0 != table@[j].0),
{
    let mut j: usize = 0;
    while j < table.len()
        invariant
            j <= table.len(),
            forall|x: int, y: int| 0 <= x < y < j ==> table@[x].0 != table@[y].0,
        decreases table.len() - j,
    {
        let mut i: usize = 0;
        while i < j
            invariant
                i <= j < table.len(),
                forall|x: int| 0 <= x < i ==> table@[x].0 != table@[j as int].0,
            decreases j - i,
        {
            if table[i].0 == table[j].0 {
                return false;
            }
            i += 1;
        }
        j += 1;
    }
    true
}

/// Lexicographic order on byte strings: the order of `str`.
pub open spec fn bytes_lt(a: Seq<u8>, b: Seq<u8>) -> bool
    decreases a.len(),
{
    if a.len() == 0 {
        b.len() > 0
    } else if b.len() == 0 {
        false
    } else if a[0] != b[0] {
        a[0] < b[0]
    } else {
        bytes_lt(a.drop_first(), b.drop_first())
    }
}

proof fn lemma_bytes_lt_trans(a: Seq<u8>, b: Seq<u8>, c: Seq<u8>)
    requires
        bytes_lt(a, b),
        bytes_lt(b, c),
    ensures
        bytes_lt(a, c),
    decreases a.len(),
{
    if a.len() > 0 && b.len() > 0 && c.len() > 0 && a[0] == b[0] && b[0] == c[0] {
        lemma_bytes_lt_trans(a.drop_first(), b.drop_first(), c.drop_first());
    }
}

proof fn lemma_bytes_lt_irrefl(a: Seq<u8>)
    ensures
        !bytes_lt(a, a),
    decreases a.len(),
{
    if a.len() > 0 {
        lemma_bytes_lt_irrefl(a.drop_first());
    }
}

fn less_bytes(a: &[u8], b: &[u8]) -> (r: bool)
    ensures
        r == bytes_lt(a@, b@),
{
    let mut i: usize = 0;
    assert(a@.skip(0) =~= a@);
    assert(b@.skip(0) =~= b@);
    while i < a.len() && i < b.len() && a[i] == b[i]
        invariant
            i <= a@.len(),
            i <= b@.len(),
            bytes_lt(a@, b@) == bytes_lt(a@.skip(i as int), b@.skip(i as int)),
        decreases a@.len() - i,
    {
        proof {
            assert(a@.skip(i as int).drop_first() =~= a@.skip(i + 1));
            assert(b@.skip(i as int).drop_first() =~= b@.skip(i + 1));
        }
        i += 1;
    }
    if i == a.len() {
        i < b.len()
    } else if i == b.len() {
        false
    } else {
        a[i] < b[i]
    }
}

/// The bytes of an identifier.
pub open spec fn id_bytes(s: String) -> Seq<u8> {
    vstd::utf8::encode_utf8(s@)
}

/// Whether some entry of `s` has the identifier `id`.
pub open spec fn has_identifier(s: Seq<(String, TypeKey, Guarantees)>, id: Seq<char>) -> bool {
    exists|i: int| 0 <= i < s.len() && s[i].0@ == id
}

/// Whether some entry of `s` has the key `k`.
pub open spec fn has_sorted_key(s: Seq<(String, TypeKey, Guarantees)>, k: TypeKey) -> bool {
    exists|i: int| 0 <= i < s.len() && s[i].1 == k
}

/// The key and guarantee of each entry of `s`.
pub open spec fn plain(s: Seq<(String, TypeKey, Guarantees)>) -> Seq<(TypeKey, Guarantees)> {
    s.map_values(|e: (String, TypeKey, Guarantees)| (e.1, e.2))
}

/// Whether `order` lists each index below `n` once.
pub open spec fn is_permutation(order: Seq<int>, n: int) -> bool {
    &&& order.len() == n
    &&& forall|j: int| 0 <= j < n ==> 0 <= #[trigger] order[j] < n
    &&& forall|i: int, j: int| 0 <= i < j < n ==> order[i] != order[j]
}

/// The registered rows of `s` in the order `order`, without identifiers.
pub open spec fn rows_in_order(s: Seq<(String, TypeKey, Guarantees)>, order: Seq<int>) -> Seq<(TypeKey, Guarantees)> {
    Seq::new(order.len(), |j: int| (s[order[j]].1, s[order[j]].2))
}

/// Whether `order` lists the entries of `s` by their identifiers' bytes.
pub open spec fn sorted_by_id(s: Seq<(String, TypeKey, Guarantees)>, order: Seq<int>) -> bool {
    forall|i: int, j: int|
        0 <= i < j < order.len() ==> !bytes_lt(id_bytes(s[order[j]].0), id_bytes(s[order[i]].0))
}

/// Collects the message types to send over the network, each under a unique identifier.
///
/// The registration order does not matter: the built table orders the types by identifier,
/// so peers that register the same types in any order agree on their message types.
#[derive(Clone, Debug)]
pub struct SortedMsgTable {
    table: Vec<(String, TypeKey, Guarantees)>,
}

impl View for SortedMsgTable {
    type V = Seq<(String, TypeKey, Guarantees)>;

    closed spec fn view(&self) -> Seq<(String, TypeKey, Guarantees)> {
        self.table@
    }
}

fn find_identifier(table: &Vec<(String, TypeKey, Guarantees)>, id: &str) -> (r: bool)
    ensures
        r == has_identifier(table@, id@),
{
    let wanted = id.to_owned();
    let mut i: usize = 0;
    while i < table.len()
        invariant
            i <= table@.len(),
            wanted@ == id@,
            forall|j: int| 0 <= j < i ==> table@[j].0@ != id@,
        decreases table@.len() - i,
    {
        if table[i].0 == wanted {
            return true;
        }
        i += 1;
    }
    false
}

fn find_sorted_key(table: &Vec<(String, TypeKey, Guarantees)>, tid: TypeKey) -> (r: bool)
    ensures
        r == has_sorted_key(table@, tid),
{
    let mut i: usize = 0;
    while i < table.len()
        invariant
            i <= table@.len(),
            forall|j: int| 0 <= j < i ==> table@[j].1 != tid,
        decreases table@.len() - i,
    {
        if table[i].1 == tid {
            return true;
        }
        i += 1;
    }
    false
}

impl SortedMsgTable {
    /// Creates an empty [`SortedMsgTable`].
    pub fn new() -> (r: Self)
        ensures
            r@ == Seq::<(String, TypeKey, Guarantees)>::empty(),
    {
        SortedMsgTable { table: Vec::new() }
    }

    /// The number of registered types.
    pub fn len(&self) -> (r: usize)
        ensures
            r == self@.len(),
    {
        self.table.len()
    }

    /// Registers a message type with its own serialization, under the key `tid` and the
    /// identifier `identifier`. Fails with `NonUniqueIdentifier` when the identifier is
    /// taken, else with `TypeAlreadyRegistered` when `tid` is registered.
    pub fn register_custom(&mut self, identifier: &str, tid: TypeKey, guarantees: Guarantees) -> (r: Result<(), MsgRegError>)
        ensures
            has_identifier(old(self)@, identifier@) ==> r == Err::<(), MsgRegError>(
                MsgRegError::NonUniqueIdentifier,
            ) && final(self)@ == old(self)@,
            !has_identifier(old(self)@, identifier@) && has_sorted_key(old(self)@, tid) ==> r
                == Err::<(), MsgRegError>(MsgRegError::TypeAlreadyRegistered) && final(self)@ == old(self)@,
            !has_identifier(old(self)@, identifier@) && !has_sorted_key(old(self)@, tid) ==> r is Ok
                && final(self)@.len() == old(self)@.len() + 1
                && final(self)@.subrange(0, old(self)@.len() as int) == old(self)@
                && final(self)@.last().0@ == identifier@
                && final(self)@.last().1 == tid
                && final(self)@.last().2 == guarantees,
    {
        match self.get_custom_registration(identifier, tid, guarantees) {
            Ok(reg) => {
                self.table.push(reg);
                assert(self.table@.subrange(0, old(self)@.len() as int) =~= old(self)@);
                Ok(())
            },
            Err(e) => Err(e),
        }
    }

    /// The registration row for `identifier` and `tid`, or the error that registering them
    /// would give.
    pub fn get_custom_registration(&self, identifier: &str, tid: TypeKey, guarantees: Guarantees) -> (r: Result<(String, TypeKey, Guarantees), MsgRegError>)
        ensures
            has_identifier(self@, identifier@) ==> r == Err::<(String, TypeKey, Guarantees), MsgRegError>(
                MsgRegError::NonUniqueIdentifier,
            ),
            !has_identifier(self@, identifier@) && has_sorted_key(self@, tid) ==> r
                == Err::<(String, TypeKey, Guarantees), MsgRegError>(MsgRegError::TypeAlreadyRegistered),
            !has_identifier(self@, identifier@) && !has_sorted_key(self@, tid) ==> r is Ok
                && r->Ok_0.0@ == identifier@ && r->Ok_0.1 == tid && r->Ok_0.2 == guarantees,
    {
        if find_identifier(&self.table, identifier) {
            return Err(MsgRegError::NonUniqueIdentifier);
        }
        if find_sorted_key(&self.table, tid) {
            return Err(MsgRegError::TypeAlreadyRegistered);
        }
        Ok((identifier.to_owned(), tid, guarantees))
    }

    /// The order of the entries by identifier: a stable insertion sort over indices.
    fn sorted_order(&self) -> (r: Vec<usize>)
        ensures
            is_permutation(r@.map_values(|i: usize| i as int), self@.len() as int),
            sorted_by_id(self@, r@.map_values(|i: usize| i as int)),
    {
        let n = self.table.len();
        let mut order: Vec<usize> = Vec::new();
        let mut i: usize = 0;
        while i < n
            invariant
                n == self@.len(),
                i <= n,
                order@.len() == i,
                forall|j: int| 0 <= j < i ==> #[trigger] order@[j] < i,
                forall|x: int, y: int| 0 <= x < y < i ==> order@[x] != order@[y],
                forall|x: int, y: int|
                    0 <= x < y < i ==> !bytes_lt(
                        id_bytes(self@[order@[y] as int].0),
                        id_bytes(self@[order@[x] as int].0),
                    ),
            decreases n - i,
        {
            let key = self.table[i].0.as_str().as_bytes();
            let mut q: usize = 0;
            let mut found = false;
            while q < order.len() && !found
                invariant
                    q <= order@.len(),
                    order@.len() == i,
                    i < n,
                    n == self@.len(),
                    key@ == id_bytes(self@[i as int].0),
                    forall|j: int| 0 <= j < i ==> #[trigger] order@[j] < i,
                    forall|x: int| 0 <= x < q ==> !bytes_lt(key@, #[trigger] id_bytes(self@[order@[x] as int].0)),
                    found ==> q < order@.len() && bytes_lt(key@, id_bytes(self@[order@[q as int] as int].0)),
                decreases order@.len() - q + (if found { 0int } else { 1int }),
            {
                if less_bytes(key, self.table[order[q]].0.as_str().as_bytes()) {
                    found = true;
                } else {
                    q += 1;
                }
            }
            let p = q;
            let ghost old_order = order@;
            proof {
                assert forall|x: int| 0 <= x < p implies !bytes_lt(key@, #[trigger] id_bytes(self@[old_order[x] as int].0)) by {}
                if p < old_order.len() {
                    assert(bytes_lt(key@, id_bytes(self@[old_order[p as int] as int].0)));
                    assert forall|y: int| p <= y < old_order.len() implies !bytes_lt(
                        #[trigger] id_bytes(self@[old_order[y] as int].0),
                        key@,
                    ) by {
                        if bytes_lt(id_bytes(self@[old_order[y] as int].0), key@) {
                            lemma_bytes_lt_trans(
                                id_bytes(self@[old_order[y] as int].0),
                                key@,
                                id_bytes(self@[old_order[p as int] as int].0),
                            );
                            if y > p {
                                assert(!bytes_lt(
                                    id_bytes(self@[old_order[y] as int].0),
                                    id_bytes(self@[old_order[p as int] as int].0),
                                ));
                            } else {
                                lemma_bytes_lt_irrefl(id_bytes(self@[old_order[p as int] as int].0));
                            }
                        }
                    }
                }
            }
            order.insert(p, i);
            proof {
                assert forall|x: int, y: int| 0 <= x < y < i + 1 implies !bytes_lt(
                    id_bytes(self@[order@[y] as int].0),
                    id_bytes(self@[order@[x] as int].0),
                ) by {
                    let ox = if x < p { x } else if x == p { -1 } else { x - 1 };
                    let oy = if y < p { y } else if y == p { -1 } else { y - 1 };
                    if x == p {
                        assert(order@[x] == i);
                        assert(order@[y] == old_order[oy]);
                    } else if y == p {
                        assert(order@[y] == i);
                        assert(order@[x] == old_order[ox]);
                    } else {
                        assert(order@[x] == old_order[ox]);
                        assert(order@[y] == old_order[oy]);
                    }
                }
                assert forall|x: int, y: int| 0 <= x < y < i + 1 implies order@[x] != order@[y] by {
                    let ox = if x < p { x } else { x - 1 };
                    let oy = if y < p { y } else { y - 1 };
                    if x != p && y != p {
                        assert(order@[x] == old_order[ox]);
                        assert(order@[y] == old_order[oy]);
                    } else if x == p {
                        assert(order@[y] == old_order[oy]);
                    } else {
                        assert(order@[x] == old_order[ox]);
                    }
                }
                assert forall|j: int| 0 <= j < i + 1 implies #[trigger] order@[j] < i + 1 by {
                    if j < p {
                        assert(order@[j] == old_order[j]);
                    } else if j > p {
                        assert(order@[j] == old_order[j - 1]);
                    }
                }
            }
            i += 1;
        }
        order
    }

    /// The key and guarantee of each entry, in registration order.
    fn plain_rows(&self) -> (r: Vec<(TypeKey, Guarantees)>)
        ensures
            r@ == plain(self@),
    {
        let mut out: Vec<(TypeKey, Guarantees)> = Vec::new();
        let mut i: usize = 0;
        while i < self.table.len()
            invariant
                i <= self@.len(),
                out@ == plain(self@.subrange(0, i as int)),
            decreases self@.len() - i,
        {
            out.push((self.table[i].1, self.table[i].2));
            i += 1;
            assert(out@ =~= plain(self@.subrange(0, i as int)));
        }
        assert(self@.subrange(0, i as int) =~= self@);
        out
    }

    /// Builds the table: the connection (`c`), acceptance (`a`), rejection (`r`) and
    /// disconnection (`d`) types take their fixed slots, and the registered types follow,
    /// ordered by the bytes of their identifiers. Fails with `TooManyTypes` when the rows
    /// would not fit a `usize` count, else with `TypeAlreadyRegistered` when a control key
    /// repeats or is registered; succeeds otherwise.
    pub fn build(self, c: TypeKey, a: TypeKey, r: TypeKey, d: TypeKey) -> (res: Result<MsgTableParts, MsgRegError>)
        ensures
            self@.len() + 7 > usize::MAX ==> res == Err::<MsgTableParts, MsgRegError>(
                MsgRegError::TooManyTypes,
            ),
            self@.len() + 7 <= usize::MAX && !keys_distinct(c, a, r, d, plain(self@)) ==> res == Err::<
                MsgTableParts,
                MsgRegError,
            >(MsgRegError::TypeAlreadyRegistered),
            self@.len() + 7 <= usize::MAX && keys_distinct(c, a, r, d, plain(self@)) ==> res is Ok,
            res is Ok ==> exists|order: Seq<int>|
                is_permutation(order, self@.len() as int) && sorted_by_id(self@, order) && res->Ok_0.wf()
                    && res->Ok_0@ == built_rows(c, a, r, d, rows_in_order(self@, order)),
    {
        if self.table.len() > usize::MAX - 7 {
            return Err(MsgRegError::TooManyTypes);
        }
        let flat = self.plain_rows();
        if !control_keys_free(&flat, c, a, r, d) || !keys_unique(&flat) {
            return Err(MsgRegError::TypeAlreadyRegistered);
        }
        let order = self.sorted_order();
        let ghost ord = order@.map_values(|i: usize| i as int);
        let mut rows: Vec<(TypeKey, Guarantees)> = Vec::new();
        let mut j: usize = 0;
        while j < order.len()
            invariant
                is_permutation(ord, self@.len() as int),
                ord == order@.map_values(|i: usize| i as int),
                j <= order@.len(),
                rows@ == rows_in_order(self@, ord.subrange(0, j as int)),
            decreases order@.len() - j,
        {
            let k = order[j];
            assert(ord[j as int] == k as int);
            rows.push((self.table[k].1, self.table[k].2));
            j += 1;
            assert(rows@ =~= rows_in_order(self@, ord.subrange(0, j as int)));
        }
        assert(ord.subrange(0, j as int) =~= ord);
        proof {
            let p = plain(self@);
            assert forall|x: int| 0 <= x < rows@.len() implies #[trigger] rows@[x] == p[ord[x]] by {}
            assert forall|k: TypeKey| has_key(rows@, k) implies has_key(p, k) by {
                let x = choose|x: int| 0 <= x < rows@.len() && rows@[x].0 == k;
                assert(rows@[x] == p[ord[x]]);
            }
            assert forall|x: int, y: int| 0 <= x < y < rows@.len() implies rows@[x].0 != rows@[y].0 by {
                assert(rows@[x] == p[ord[x]]);
                assert(rows@[y] == p[ord[y]]);
                assert(ord[x] != ord[y]);
                if ord[x] > ord[y] {
                    assert(p[ord[y]].0 != p[ord[x]].0);
                }
            }
            assert(keys_distinct(c, a, r, d, rows@));
        }
        Ok(MsgTableParts::from_rows(c, a, r, d, &rows))
    }
}

/// A built message table: for each [`MType`] its type key (none for the unused slot and
/// the built-in ping and acknowledgement messages) and its [`Guarantees`].
pub struct MsgTableParts {
    tid_map: TypeIndex,
    tids: Vec<Option<TypeKey>>,
    guarantees: Vec<Guarantees>,
}

impl View for MsgTableParts {
    type V = Seq<(Option<TypeKey>, Guarantees)>;

    closed spec fn view(&self) -> Seq<(Option<TypeKey>, Guarantees)> {
        Seq::new(self.tids@.len(), |i: int| (self.tids@[i], self.guarantees@[i]))
    }
}

impl MsgTableParts {
    /// The index from keys to message types agrees with the rows, which have distinct keys.
    pub closed spec fn wf(&self) -> bool {
        &&& self.tids@.len() == self.guarantees@.len()
        &&& self.tids@.len() >= FIRST_USER_M_TYPE
        &&& forall|m: int| 0 <= m < FIRST_USER_M_TYPE ==> #[trigger] self.guarantees@[m] == control_guarantees(m)
        &&& forall|k: TypeKey| #[trigger]
            type_index_map(self.tid_map).contains_key(k) ==> {
                let m = type_index_map(self.tid_map)[k];
                0 <= m < self.tids@.len() && self.tids@[m as int] == Some(k)
            }
        &&& forall|m: int|
            0 <= m < self.tids@.len() && #[trigger] self.tids@[m] is Some ==> type_index_map(
                self.tid_map,
            ).contains_key(self.tids@[m]->Some_0)
    }

    fn from_rows(c: TypeKey, a: TypeKey, r: TypeKey, d: TypeKey, user: &Vec<(TypeKey, Guarantees)>) -> (res: Self)
        requires
            keys_distinct(c, a, r, d, user@),
            user@.len() + 7 <= usize::MAX,
        ensures
            res.wf(),
            res@ == built_rows(c, a, r, d, user@),
    {
        let mut tid_map = type_index_new();
        let mut tids: Vec<Option<TypeKey>> = vec![None, Some(c), Some(a), Some(r), Some(d), None, None];
        let mut guarantees: Vec<Guarantees> = vec![
            Guarantees::Unreliable,
            Guarantees::Reliable,
            Guarantees::Reliable,
            Guarantees::Reliable,
            Guarantees::Reliable,
            Guarantees::Unreliable,
            Guarantees::Unreliable,
        ];
        type_index_insert(&mut tid_map, c, CONNECTION_M_TYPE);
        type_index_insert(&mut tid_map, a, ACCEPT_M_TYPE);
        type_index_insert(&mut tid_map, r, REJECT_M_TYPE);
        type_index_insert(&mut tid_map, d, DISCONNECT_M_TYPE);
        let ghost rows = built_rows(c, a, r, d, user@);
        let mut i: usize = 0;
        while i < user.len()
            invariant
                keys_distinct(c, a, r, d, user@),
                user@.len() + 7 <= usize::MAX,
                rows == built_rows(c, a, r, d, user@),
                i <= user.len(),
                tids@.len() == 7 + i,
                guarantees@.len() == 7 + i,
                forall|m: int| 0 <= m < 7 + i ==> (#[trigger] tids@[m], guarantees@[m]) == rows[m],
                forall|k: TypeKey| #[trigger]
                    type_index_map(tid_map).contains_key(k) ==> {
                        let m = type_index_map(tid_map)[k];
                        0 <= m < tids@.len() && tids@[m as int] == Some(k)
                    },
                forall|m: int|
                    0 <= m < tids@.len() && #[trigger] tids@[m] is Some ==> type_index_map(
                        tid_map,
                    ).contains_key(tids@[m]->Some_0),
            decreases user.len() - i,
        {
            let (k, g) = user[i];
            proof {
                assert forall|m: int| 0 <= m < tids@.len() && tids@[m] is Some implies tids@[m]->Some_0 != k by {
                    assert((tids@[m], guarantees@[m]) == rows[m]);
                    if m >= 7 {
                        assert(user@[m - 7].0 != user@[i as int].0);
                    }
                }
            }
            type_index_insert(&mut tid_map, k, i + 7);
            tids.push(Some(k));
            guarantees.push(g);
            i += 1;
        }
        let res = MsgTableParts { tid_map, tids, guarantees };
        assert(res@ =~= rows);
        assert forall|m: int| 0 <= m < FIRST_USER_M_TYPE implies #[trigger] res.guarantees@[m] == control_guarantees(m) by {
            assert((res.tids@[m], res.guarantees@[m]) == rows[m]);
        }
        res
    }

    /// A valid table holds at least the unused slot and the control types, with their
    /// fixed guarantees.
    pub proof fn lemma_wf_len(&self)
        requires
            self.wf(),
        ensures
            self@.len() >= FIRST_USER_M_TYPE,
            forall|m: int| 0 <= m < FIRST_USER_M_TYPE ==> #[trigger] self@[m].1 == control_guarantees(m),
    {
        assert forall|m: int| 0 <= m < FIRST_USER_M_TYPE implies #[trigger] self@[m].1 == control_guarantees(m) by {
            assert(self.guarantees@[m] == control_guarantees(m));
        }
    }

    /// The number of message types, counting the unused slot 0.
    pub fn mid_count(&self) -> (r: usize)
        ensures
            r == self@.len(),
    {
        self.tids.len()
    }

    /// Whether `mid` is the [`MType`] of a message type of this table.
    pub fn valid_mid(&self, mid: MType) -> (r: bool)
        ensures
            r == (1 <= mid < self@.len()),
    {
        1 <= mid && mid < self.tids.len()
    }

    /// Whether the key `tid` is registered.
    pub fn valid_tid(&self, tid: TypeKey) -> (r: bool)
        requires
            self.wf(),
        ensures
            r == (exists|m: int| 0 <= m < self@.len() && self@[m].0 == Some(tid)),
    {
        self.mtype_of(tid).is_some()
    }

    /// The [`MType`] registered for the key `tid`, if any.
    pub fn mtype_of(&self, tid: TypeKey) -> (r: Option<MType>)
        requires
            self.wf(),
        ensures
            r is Some ==> r->Some_0 < self@.len() && self@[r->Some_0 as int].0 == Some(tid),
            r is None ==> forall|m: int| 0 <= m < self@.len() ==> self@[m].0 != Some(tid),
    {
        let r = type_index_get(&self.tid_map, tid);
        proof {
            if r is None {
                assert forall|m: int| 0 <= m < self@.len() implies self@[m].0 != Some(tid) by {
                    if self.tids@[m] is Some {
                        assert(type_index_map(self.tid_map).contains_key(self.tids@[m]->Some_0));
                    }
                }
            }
        }
        r
    }

    /// The key of the message type `mid`, if it has one.
    pub fn type_key(&self, mid: MType) -> (r: Option<TypeKey>)
        requires
            mid < self@.len(),
        ensures
            r == self@[mid as int].0,
    {
        self.tids[mid]
    }

    /// The [`Guarantees`] of the message type `mid`.
    pub fn guarantees(&self, mid: MType) -> (r: Guarantees)
        requires
            self.wf(),
            mid < self@.len(),
        ensures
            r == self@[mid as int].1,
    {
        self.guarantees[mid]
    }
}

} // verus!
