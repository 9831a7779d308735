//! Compiled program data, and the per-execution inline caches that remember
//! which object shapes a property access has seen.
use vstd::prelude::*;
use crate::vm::opcode::op;
use crate::text::{str_eq, clone_strs};

verus! {

/// Immutable program data shared across all executions of a compiled chunk:
/// bytecode, literal constants (of type `C`), line table, file name and
/// source text.
#[derive(Debug, Clone, PartialEq)]
pub struct ChunkProgram<C> {
    pub code: Vec<u32>,
    pub constants: Vec<C>,
    pub lines: Vec<u32>,
    pub filename: String,
    pub source: String,
}

impl<C> Default for ChunkProgram<C> {
    fn default() -> (p: Self)
        ensures
            p.code@.len() == 0,
            p.constants@.len() == 0,
            p.lines@.len() == 0,
            p.filename@.len() == 0,
            p.source@.len() == 0,
    {
        ChunkProgram {
            code: Vec::new(),
            constants: Vec::new(),
            lines: Vec::new(),
            filename: String::new(),
            source: String::new(),
        }
    }
}

impl<C> ChunkProgram<C> {
    /// An empty program for `filename`.
    pub fn new(filename: &str) -> (p: Self)
        ensures
            p.code@.len() == 0,
            p.constants@.len() == 0,
            p.lines@.len() == 0,
            p.filename@ == filename@,
            p.source@.len() == 0,
    {
        ChunkProgram {
            code: Vec::new(),
            constants: Vec::new(),
            lines: Vec::new(),
            filename: filename.to_owned(),
            source: String::new(),
        }
    }

    /// An empty sub-program sharing the parent's file name.
    pub fn new_sub_program(&self) -> (p: Self)
        ensures
            p.code@.len() == 0,
            p.constants@.len() == 0,
            p.lines@.len() == 0,
            p.filename@ == self.filename@,
            p.source@.len() == 0,
    {
        ChunkProgram {
            code: Vec::new(),
            constants: Vec::new(),
            lines: Vec::new(),
            filename: self.filename.clone(),
            source: String::new(),
        }
    }
}

/// An inline-cache entry: one shape, up to four shapes, too many shapes, or
/// a global slot.
#[derive(Debug, Clone, Copy, PartialEq, Eq)]
pub enum IcEntry {
    Monomorphic { shape_id: usize, index: usize },
    Polymorphic { entries: [(usize, usize); 4], count: usize },
    Megamorphic,
    Global { index: usize },
}

/// Mutable runtime state of one execution of a chunk: an inline-cache slot
/// per instruction word.
#[derive(Debug, Clone, PartialEq)]
pub struct ChunkRuntime {
    pub caches: Vec<Option<IcEntry>>,
    pub constant_map: Vec<(ConstantKey, u32)>,
}

impl Default for ChunkRuntime {
    fn default() -> (r: Self)
        ensures
            r.caches@.len() == 0,
            r.constant_keys().len() == 0,
    {
        ChunkRuntime { caches: Vec::new(), constant_map: Vec::new() }
    }
}

/// What makes two constants one: constants with equal keys share a slot of
/// the constant table. A number is keyed by its bit pattern, a compiled
/// function by its name.
#[derive(Debug, Clone, PartialEq, Eq)]
pub enum ConstantKey {
    Number(u64),
    String(String),
    Boolean(bool),
    Null,
    StringArray(Vec<String>),
    Function(String),
}

/// The contents of each string.
pub open spec fn string_views(v: Seq<String>) -> Seq<Seq<char>> {
    v.map_values(|x: String| x@)
}

/// A constant key as a mathematical value.
pub enum ConstantKeyView {
    Number(u64),
    String(Seq<char>),
    Boolean(bool),
    Null,
    StringArray(Seq<Seq<char>>),
    Function(Seq<char>),
}

impl View for ConstantKey {
    type V = ConstantKeyView;

    open spec fn view(&self) -> ConstantKeyView {
        match self {
            ConstantKey::Number(n) => ConstantKeyView::Number(*n),
            ConstantKey::String(s) => ConstantKeyView::String(s@),
            ConstantKey::Boolean(b) => ConstantKeyView::Boolean(*b),
            ConstantKey::Null => ConstantKeyView::Null,
            ConstantKey::StringArray(v) => ConstantKeyView::StringArray(string_views(v@)),
            ConstantKey::Function(s) => ConstantKeyView::Function(s@),
        }
    }
}

/// A constant as the constant table's sharing reads it: a number by the bit
/// pattern of its double, a compiled function by its name, and a class or
/// an interface, which is never shared.
#[derive(Debug, Clone, PartialEq)]
pub enum ConstantModel {
    Number(u64),
    String(String),
    Boolean(bool),
    Null,
    StringArray(Vec<String>),
    CompiledFunction(String),
    Class,
    Interface,
}

/// The key a constant is shared by, if it has one.
pub open spec fn key_of(c: ConstantModel) -> Option<ConstantKeyView> {
    match c {
        ConstantModel::Number(n) => Some(ConstantKeyView::Number(n)),
        ConstantModel::String(s) => Some(ConstantKeyView::String(s@)),
        ConstantModel::Boolean(b) => Some(ConstantKeyView::Boolean(b)),
        ConstantModel::Null => Some(ConstantKeyView::Null),
        ConstantModel::StringArray(v) => Some(ConstantKeyView::StringArray(string_views(v@))),
        ConstantModel::CompiledFunction(name) => Some(ConstantKeyView::Function(name@)),
        ConstantModel::Class => None,
        ConstantModel::Interface => None,
    }
}

impl ConstantKey {
    /// The key of a constant: numbers by their bits, compiled functions by
    /// their names; classes and interfaces have none.
    pub fn from_constant(c: &ConstantModel) -> (k: Option<ConstantKey>)
        ensures
            match k {
                Some(x) => key_of(*c) == Some(x@),
                None => key_of(*c) is None,
            },
    {
        match c {
            ConstantModel::Number(n) => Some(ConstantKey::Number(*n)),
            ConstantModel::String(s) => Some(ConstantKey::String(s.clone())),
            ConstantModel::Boolean(b) => Some(ConstantKey::Boolean(*b)),
            ConstantModel::Null => Some(ConstantKey::Null),
            ConstantModel::StringArray(v) => Some(ConstantKey::StringArray(clone_strs(v))),
            ConstantModel::CompiledFunction(name) => Some(ConstantKey::Function(name.clone())),
            ConstantModel::Class => None,
            ConstantModel::Interface => None,
        }
    }
}

/// Key equality.
pub fn same_key(a: &ConstantKey, b: &ConstantKey) -> (r: bool)
    ensures
        r == (a@ == b@),
{
    match (a, b) {
        (ConstantKey::Number(x), ConstantKey::Number(y)) => *x == *y,
        (ConstantKey::String(x), ConstantKey::String(y)) => str_eq(x.as_str(), y.as_str()),
        (ConstantKey::Boolean(x), ConstantKey::Boolean(y)) => *x == *y,
        (ConstantKey::Null, ConstantKey::Null) => true,
        (ConstantKey::StringArray(x), ConstantKey::StringArray(y)) => {
            if x.len() != y.len() {
                assert(string_views(x@).len() != string_views(y@).len());
                return false;
            }
            let mut i: usize = 0;
            while i < x.len()
                invariant
                    i <= x@.len(),
                    x@.len() == y@.len(),
                    a@ == ConstantKeyView::StringArray(string_views(x@)),
                    b@ == ConstantKeyView::StringArray(string_views(y@)),
                    forall|j: int| 0 <= j < i ==> (#[trigger] x@[j])@ == y@[j]@,
                decreases x.len() - i,
            {
                if !str_eq(x[i].as_str(), y[i].as_str()) {
                    let ghost xv = string_views(x@);
                    let ghost yv = string_views(y@);
                    assert(xv[i as int] != yv[i as int]);
                    assert(xv != yv);
                    return false;
                }
                i = i + 1;
            }
            assert(string_views(x@) =~= string_views(y@));
            true
        },
        (ConstantKey::Function(x), ConstantKey::Function(y)) => str_eq(x.as_str(), y.as_str()),
        _ => false,
    }
}

/// The slot recorded for key `k`: the first entry with that key.
pub open spec fn key_slot(keys: Seq<(ConstantKeyView, u32)>, k: ConstantKeyView) -> Option<u32>
    decreases keys.len(),
{
    if keys.len() == 0 {
        None
    } else if keys[0].0 == k {
        Some(keys[0].1)
    } else {
        key_slot(keys.drop_first(), k)
    }
}

/// A slot found for a key is one that the table records.
proof fn lemma_key_slot_recorded(keys: Seq<(ConstantKeyView, u32)>, k: ConstantKeyView)
    requires
        key_slot(keys, k) is Some,
    ensures
        exists|j: int| 0 <= j < keys.len() && (#[trigger] keys[j]).1 == key_slot(keys, k)->0,
    decreases keys.len(),
{
    if keys[0].0 != k {
        lemma_key_slot_recorded(keys.drop_first(), k);
        let j = choose|j: int| 0 <= j < keys.drop_first().len()
            && (#[trigger] keys.drop_first()[j]).1 == key_slot(keys.drop_first(), k)->0;
        assert(keys[j + 1] == keys.drop_first()[j]);
    } else {
        assert(keys[0].1 == key_slot(keys, k)->0);
    }
}

/// Recording a key that has no slot yet gives it the recorded slot.
pub proof fn lemma_key_slot_push(keys: Seq<(ConstantKeyView, u32)>, k: ConstantKeyView, idx: u32)
    requires
        key_slot(keys, k) is None,
    ensures
        key_slot(keys.push((k, idx)), k) == Some(idx),
    decreases keys.len(),
{
    if keys.len() > 0 {
        assert(keys.push((k, idx)).drop_first() =~= keys.drop_first().push((k, idx)));
        lemma_key_slot_push(keys.drop_first(), k, idx);
    }
}

/// The entry cached at `ip`; slots past the end are empty.
pub open spec fn cache_at(caches: Seq<Option<IcEntry>>, ip: int) -> Option<IcEntry> {
    if 0 <= ip < caches.len() {
        caches[ip]
    } else {
        None
    }
}

/// The slots extended with empty ones to at least `n`.
pub open spec fn grown(caches: Seq<Option<IcEntry>>, n: int) -> Seq<Option<IcEntry>> {
    if caches.len() < n {
        caches + Seq::new((n - caches.len()) as nat, |i: int| None::<IcEntry>)
    } else {
        caches
    }
}

/// The first `count` shapes of a polymorphic entry.
pub open spec fn poly_has(entries: [(usize, usize); 4], count: usize, shape_id: usize) -> bool {
    exists|k: int| 0 <= k < count && k < 4 && (#[trigger] entries@[k]).0 == shape_id
}

/// The entry that recording `shape_id` at slot `index` leaves in place of
/// `cur`; `None` when the cached entry stays as it is.
pub open spec fn add_shape_spec(cur: Option<IcEntry>, shape_id: usize, index: usize) -> Option<IcEntry> {
    match cur {
        None => Some(IcEntry::Monomorphic { shape_id, index }),
        Some(IcEntry::Monomorphic { shape_id: cs, index: ci }) => if cs == shape_id {
            None
        } else {
            Some(IcEntry::Polymorphic { entries: [(cs, ci), (shape_id, index), (0, 0), (0, 0)], count: 2 })
        },
        Some(IcEntry::Polymorphic { entries, count }) => if poly_has(entries, count, shape_id) {
            None
        } else if count < 4 {
            Some(
                IcEntry::Polymorphic {
                    entries: [
                        if count == 0 { (shape_id, index) } else { entries@[0] },
                        if count == 1 { (shape_id, index) } else { entries@[1] },
                        if count == 2 { (shape_id, index) } else { entries@[2] },
                        if count == 3 { (shape_id, index) } else { entries@[3] },
                    ],
                    count: (count + 1) as usize,
                },
            )
        } else {
            Some(IcEntry::Megamorphic)
        },
        Some(_) => None,
    }
}

/// Polymorphic entries count at most four shapes.
pub open spec fn entry_ok(e: Option<IcEntry>) -> bool {
    e matches Some(IcEntry::Polymorphic { count, .. }) ==> count <= 4
}

impl ChunkRuntime {
    /// The constant keys recorded so far, with their slots.
    pub open spec fn constant_keys(&self) -> Seq<(ConstantKeyView, u32)> {
        self.constant_map@.map_values(|e: (ConstantKey, u32)| (e.0@, e.1))
    }

    /// The slot recorded for `k`.
    fn constant_slot(&self, k: &ConstantKey) -> (r: Option<u32>)
        ensures
            r == key_slot(self.constant_keys(), k@),
    {
        let ghost keys = self.constant_keys();
        assert(keys.skip(0) =~= keys);
        let mut i: usize = 0;
        while i < self.constant_map.len()
            invariant
                i <= self.constant_map@.len(),
                keys == self.constant_keys(),
                keys.len() == self.constant_map@.len(),
                key_slot(keys, k@) == key_slot(keys.skip(i as int), k@),
            decreases self.constant_map.len() - i,
        {
            assert(keys.skip(i as int)[0] == keys[i as int]);
            assert(keys.skip(i as int).drop_first() =~= keys.skip(i + 1));
            if same_key(&self.constant_map[i].0, k) {
                return Some(self.constant_map[i].1);
            }
            i = i + 1;
        }
        None
    }

    /// Records slot `idx` for `k`.
    fn record_constant(&mut self, k: ConstantKey, idx: u32)
        ensures
            final(self).constant_keys() == old(self).constant_keys().push((k@, idx)),
            final(self).caches@ == old(self).caches@,
    {
        self.constant_map.push((k, idx));
        assert(self.constant_keys() =~= old(self).constant_keys().push((k@, idx)));
    }

    /// Makes room for a cache slot per instruction word of a code of
    /// `code_len` words.
    pub fn ensure_caches(&mut self, code_len: usize)
        ensures
            final(self).caches@ == grown(old(self).caches@, code_len as int),
            final(self).constant_map == old(self).constant_map,
    {
        let ghost c0 = self.caches@;
        while self.caches.len() < code_len
            invariant
                self.constant_map == old(self).constant_map,
                c0.len() <= self.caches@.len(),
                self.caches@.len() <= code_len || self.caches@ == c0,
                self.caches@ =~= c0 + Seq::new((self.caches@.len() - c0.len()) as nat, |i: int| None::<IcEntry>),
            decreases code_len - self.caches.len(),
        {
            self.caches.push(None);
        }
    }

    pub fn cache_get(&self, ip: usize) -> (r: Option<IcEntry>)
        ensures
            r == cache_at(self.caches@, ip as int),
    {
        if ip < self.caches.len() {
            self.caches[ip]
        } else {
            None
        }
    }

    pub fn cache_set(&mut self, ip: usize, entry: IcEntry)
        requires
            ip < usize::MAX,
        ensures
            final(self).caches@ == grown(old(self).caches@, ip + 1).update(ip as int, Some(entry)),
            final(self).constant_map == old(self).constant_map,
    {
        self.ensure_caches(ip + 1);
        self.caches.set(ip, Some(entry));
    }

    /// Records that the access at `ip` saw `shape_id` (its field at
    /// `index`): empty becomes monomorphic, a second shape makes it
    /// polymorphic, a fifth megamorphic; a shape already cached, a
    /// megamorphic entry and a global entry are left alone.
    pub fn cache_add_shape(&mut self, ip: usize, shape_id: usize, index: usize)
        requires
            ip < usize::MAX,
            entry_ok(cache_at(old(self).caches@, ip as int)),
        ensures
            final(self).caches@ == match add_shape_spec(cache_at(old(self).caches@, ip as int), shape_id, index) {
                Some(e) => grown(old(self).caches@, ip + 1).update(ip as int, Some(e)),
                None => old(self).caches@,
            },
            final(self).constant_map == old(self).constant_map,
    {
        match self.cache_get(ip) {
            None => self.cache_set(ip, IcEntry::Monomorphic { shape_id, index }),
            Some(IcEntry::Monomorphic { shape_id: cached_shape, index: cached_index }) => {
                if cached_shape == shape_id {
                    return;
                }
                let mut entries = [(0usize, 0usize), (0usize, 0usize), (0usize, 0usize), (0usize, 0usize)];
                entries[0] = (cached_shape, cached_index);
                entries[1] = (shape_id, index);
                assert(entries@ =~= [(cached_shape, cached_index), (shape_id, index), (0usize, 0usize), (0usize, 0usize)]@);
                assert(entries == [(cached_shape, cached_index), (shape_id, index), (0usize, 0usize), (0usize, 0usize)]);
                self.cache_set(ip, IcEntry::Polymorphic { entries, count: 2 });
            },
            Some(IcEntry::Polymorphic { entries, count }) => {
                let ghost orig = entries;
                let mut entries = entries;
                let mut k: usize = 0;
                while k < count
                    invariant
                        entries == orig,
                        self.caches@ == old(self).caches@,
                        self.constant_map == old(self).constant_map,
                        cache_at(old(self).caches@, ip as int) == Some(IcEntry::Polymorphic { entries: orig, count }),
                        count <= 4,
                        k <= count,
                        forall|j: int| 0 <= j < k ==> (#[trigger] entries@[j]).0 != shape_id,
                    decreases count - k,
                {
                    if entries[k].0 == shape_id {
                        assert(poly_has(orig, count, shape_id)) by {
                            assert(orig@[k as int].0 == shape_id);
                        }
                        return;
                    }
                    k = k + 1;
                }
                if count < 4 {
                    let ghost e0 = entries;
                    entries[count] = (shape_id, index);
                    proof {
                        let expect = [
                            if count == 0 { (shape_id, index) } else { e0@[0] },
                            if count == 1 { (shape_id, index) } else { e0@[1] },
                            if count == 2 { (shape_id, index) } else { e0@[2] },
                            if count == 3 { (shape_id, index) } else { e0@[3] },
                        ];
                        assert(entries@ =~= expect@);
                        assert(entries == expect);
                    }
                    self.cache_set(ip, IcEntry::Polymorphic { entries, count: count + 1 });
                } else {
                    self.cache_set(ip, IcEntry::Megamorphic);
                }
            },
            Some(_) => {},
        }
    }

    /// The cached entries of slots `start .. start + len`.
    pub fn cache_slice(&self, start: usize, len: usize) -> (r: Vec<Option<IcEntry>>)
        requires
            start + len <= usize::MAX,
        ensures
            r@ == Seq::new(len as nat, |k: int| cache_at(self.caches@, start + k)),
    {
        let mut out: Vec<Option<IcEntry>> = Vec::new();
        let mut k: usize = 0;
        while k < len
            invariant
                k <= len,
                start + len <= usize::MAX,
                out@ =~= Seq::new(k as nat, |j: int| cache_at(self.caches@, start + j)),
            decreases len - k,
        {
            out.push(self.cache_get(start + k));
            k = k + 1;
        }
        out
    }
}

/// The entry at a slot after recording a shape there.
pub open spec fn after_add(cur: Option<IcEntry>, shape_id: usize, index: usize) -> Option<IcEntry> {
    match add_shape_spec(cur, shape_id, index) {
        Some(e) => Some(e),
        None => cur,
    }
}

/// How far an entry has widened: empty, one shape, several, too many.
pub open spec fn ic_rank(e: Option<IcEntry>) -> int {
    match e {
        None => 0,
        Some(IcEntry::Monomorphic { .. }) => 1,
        Some(IcEntry::Polymorphic { .. }) => 2,
        Some(IcEntry::Megamorphic) => 3,
        Some(IcEntry::Global { .. }) => 4,
    }
}

/// Whether an entry answers for `shape_id` (or for every shape).
pub open spec fn covers(e: Option<IcEntry>, shape_id: usize) -> bool {
    match e {
        None => false,
        Some(IcEntry::Monomorphic { shape_id: s, .. }) => s == shape_id,
        Some(IcEntry::Polymorphic { entries, count }) => poly_has(entries, count, shape_id),
        Some(_) => true,
    }
}

/// Recording a shape only widens an entry, never narrows it, and a global
/// entry stays global; afterwards the entry answers for that shape.
pub proof fn lemma_add_shape_widens(cur: Option<IcEntry>, shape_id: usize, index: usize)
    requires
        entry_ok(cur),
    ensures
        ic_rank(after_add(cur, shape_id, index)) >= ic_rank(cur),
        cur matches Some(IcEntry::Global { .. }) ==> after_add(cur, shape_id, index) == cur,
        covers(after_add(cur, shape_id, index), shape_id),
        entry_ok(after_add(cur, shape_id, index)),
{
    match cur {
        Some(IcEntry::Monomorphic { shape_id: cs, index: ci }) => {
            if cs != shape_id {
                let a = [(cs, ci), (shape_id, index), (0usize, 0usize), (0usize, 0usize)];
                assert(a@[1].0 == shape_id);
            }
        },
        Some(IcEntry::Polymorphic { entries, count }) => {
            if !poly_has(entries, count, shape_id) && count < 4 {
                let a = [
                    if count == 0 { (shape_id, index) } else { entries@[0] },
                    if count == 1 { (shape_id, index) } else { entries@[1] },
                    if count == 2 { (shape_id, index) } else { entries@[2] },
                    if count == 3 { (shape_id, index) } else { entries@[3] },
                ];
                assert(a@[count as int].0 == shape_id);
            }
        },
        _ => {},
    }
}

/// Recording the same shape twice is the same as recording it once.
pub proof fn lemma_add_shape_idempotent(cur: Option<IcEntry>, shape_id: usize, index: usize)
    requires
        entry_ok(cur),
    ensures
        add_shape_spec(after_add(cur, shape_id, index), shape_id, index) is None,
{
    lemma_add_shape_widens(cur, shape_id, index);
}

/// A read at a slot gives back what the last write there wrote, and a write
/// leaves every other slot's entry as it was.
pub proof fn lemma_cache_set_get(caches: Seq<Option<IcEntry>>, ip: int, e: IcEntry, j: int)
    requires
        0 <= ip,
    ensures
        cache_at(grown(caches, ip + 1).update(ip, Some(e)), j) == if j == ip {
            Some(e)
        } else {
            cache_at(caches, j)
        },
{
}

/// The first word of an instruction: the opcode in bits 0..8 and the first
/// operand, shifted into bits 8..32 (bits of `a` above the 24th are lost).
pub open spec fn op_word(opcode: u8, a: u32) -> u32 {
    (opcode as u32) | (a << 8u32)
}

/// The second word of `ITER_NEXT`: the cursor slot, with bit 31 set when
/// the loop also binds an index.
pub open spec fn cursor_word(cursor: u32, has_index: bool) -> u32 {
    cursor | (if has_index { 0x8000_0000u32 } else { 0u32 })
}

/// An instruction word decodes to its opcode and, when the operand fits in
/// 24 bits, to its operand.
pub proof fn lemma_op_word_decodes(opcode: u8, a: u32)
    ensures
        op_word(opcode, a) & 0xffu32 == opcode as u32,
        a < 0x100_0000 ==> op_word(opcode, a) >> 8u32 == a,
{
    assert(((opcode as u32) | (a << 8u32)) & 0xffu32 == opcode as u32) by (bit_vector);
    assert(a < 0x100_0000 ==> ((opcode as u32) | (a << 8u32)) >> 8u32 == a) by (bit_vector);
}

/// The cursor word decodes to its flag and, when the cursor fits in 31
/// bits, to the cursor.
pub proof fn lemma_cursor_word_decodes(cursor: u32, has_index: bool)
    ensures
        (cursor_word(cursor, has_index) >> 31u32 == 1u32) == (has_index || cursor >= 0x8000_0000),
        cursor < 0x8000_0000 ==> cursor_word(cursor, has_index) & 0x7fff_ffffu32 == cursor,
{
    if has_index {
        assert((cursor | 0x8000_0000u32) >> 31u32 == 1u32) by (bit_vector);
        assert(cursor < 0x8000_0000 ==> (cursor | 0x8000_0000u32) & 0x7fff_ffffu32 == cursor) by (bit_vector);
    } else {
        assert(((cursor | 0u32) >> 31u32 == 1u32) == (cursor >= 0x8000_0000)) by (bit_vector);
        assert(cursor < 0x8000_0000 ==> (cursor | 0u32) & 0x7fff_ffffu32 == cursor) by (bit_vector);
    }
}

impl ChunkRuntime {
    /// Adds the cache slot of one more instruction word.
    fn emit_cache_slot(&mut self)
        ensures
            final(self).caches@ == old(self).caches@.push(None),
    {
        self.caches.push(None);
    }
}

/// A compiled chunk: program data plus the runtime caches of one execution.
#[derive(Debug, Clone, PartialEq)]
pub struct Chunk<C> {
    pub program: ChunkProgram<C>,
    pub runtime: ChunkRuntime,
}

impl<C> Default for Chunk<C> {
    fn default() -> (c: Self)
        ensures
            c.program.code@.len() == 0,
            c.program.constants@.len() == 0,
            c.program.lines@.len() == 0,
            c.program.filename@.len() == 0,
            c.program.source@.len() == 0,
            c.runtime.caches@.len() == 0,
    {
        Chunk { program: ChunkProgram::default(), runtime: ChunkRuntime::default() }
    }
}

impl<C> Chunk<C> {
    /// An empty chunk for `filename`.
    pub fn new(filename: &str) -> (c: Self)
        ensures
            c.program.code@.len() == 0,
            c.program.constants@.len() == 0,
            c.program.lines@.len() == 0,
            c.program.filename@ == filename@,
            c.program.source@.len() == 0,
            c.runtime.caches@.len() == 0,
    {
        Chunk { program: ChunkProgram::new(filename), runtime: ChunkRuntime::default() }
    }

    /// An empty chunk with this chunk's file name.
    pub fn new_sub_chunk(&self) -> (c: Self)
        ensures
            c.program.code@.len() == 0,
            c.program.constants@.len() == 0,
            c.program.lines@.len() == 0,
            c.program.filename@ == self.program.filename@,
            c.program.source@.len() == 0,
            c.runtime.caches@.len() == 0,
    {
        Chunk { program: self.program.new_sub_program(), runtime: ChunkRuntime::default() }
    }

    /// Appends one word, its line and its cache slot.
    fn emit_word(&mut self, word: u32, line: u32)
        ensures
            final(self).program.code@ == old(self).program.code@.push(word),
            final(self).program.lines@ == old(self).program.lines@.push(line),
            final(self).runtime.caches@ == old(self).runtime.caches@.push(None),
            final(self).program.constants@ == old(self).program.constants@,
            final(self).program.filename@ == old(self).program.filename@,
            final(self).program.source@ == old(self).program.source@,
    {
        self.program.code.push(word);
        self.program.lines.push(line);
        self.runtime.emit_cache_slot();
    }

    /// Emits an instruction without operands (1 word).
    pub fn emit0(&mut self, opcode: u8, line: u32)
        ensures
            final(self).program.code@ == old(self).program.code@.push(opcode as u32),
            final(self).program.lines@ == old(self).program.lines@.push(line),
            final(self).runtime.caches@ == old(self).runtime.caches@.push(None),
            final(self).program.constants@ == old(self).program.constants@,
            final(self).program.filename@ == old(self).program.filename@,
            final(self).program.source@ == old(self).program.source@,
    {
        self.emit_word(opcode as u32, line);
    }

    /// Emits a one-operand instruction (1 word); the operand must fit in 24
    /// bits to decode correctly.
    pub fn emit1(&mut self, opcode: u8, a: u32, line: u32)
        ensures
            final(self).program.code@ == old(self).program.code@.push(op_word(opcode, a)),
            final(self).program.lines@ == old(self).program.lines@.push(line),
            final(self).runtime.caches@ == old(self).runtime.caches@.push(None),
            final(self).program.constants@ == old(self).program.constants@,
            final(self).program.filename@ == old(self).program.filename@,
            final(self).program.source@ == old(self).program.source@,
    {
        self.emit_word((opcode as u32) | (a << 8), line);
    }

    /// Emits a two-operand instruction (2 words): `a` in the first word,
    /// `b` as the second.
    pub fn emit2(&mut self, opcode: u8, a: u32, b: u32, line: u32)
        ensures
            final(self).program.code@ == old(self).program.code@.push(op_word(opcode, a)).push(b),
            final(self).program.lines@ == old(self).program.lines@.push(line).push(line),
            final(self).runtime.caches@ == old(self).runtime.caches@.push(None).push(None),
            final(self).program.constants@ == old(self).program.constants@,
            final(self).program.filename@ == old(self).program.filename@,
            final(self).program.source@ == old(self).program.source@,
    {
        self.emit_word((opcode as u32) | (a << 8), line);
        self.emit_word(b, line);
    }

    /// Emits a three-operand instruction (3 words): `a` in the first word,
    /// `b` and `c` as the second and third.
    pub fn emit3(&mut self, opcode: u8, a: u32, b: u32, c: u32, line: u32)
        ensures
            final(self).program.code@ == old(self).program.code@.push(op_word(opcode, a)).push(b).push(c),
            final(self).program.lines@ == old(self).program.lines@.push(line).push(line).push(line),
            final(self).runtime.caches@ == old(self).runtime.caches@.push(None).push(None).push(None),
            final(self).program.constants@ == old(self).program.constants@,
            final(self).program.filename@ == old(self).program.filename@,
            final(self).program.source@ == old(self).program.source@,
    {
        self.emit_word((opcode as u32) | (a << 8), line);
        self.emit_word(b, line);
        self.emit_word(c, line);
    }

    /// Emits `ITER_NEXT` over the collection in slot `collection` with its
    /// cursor in slot `cursor`; the exit offset starts at 0 and is patched
    /// later.
    pub fn emit_iter_next(&mut self, collection: u32, cursor: u32, has_index: bool, line: u32)
        ensures
            final(self).program.code@ == old(self).program.code@.push(op_word(op::ITER_NEXT, collection)).push(
                cursor_word(cursor, has_index),
            ).push(0u32),
            final(self).program.lines@ == old(self).program.lines@.push(line).push(line).push(line),
            final(self).runtime.caches@ == old(self).runtime.caches@.push(None).push(None).push(None),
            final(self).program.constants@ == old(self).program.constants@,
            final(self).program.filename@ == old(self).program.filename@,
            final(self).program.source@ == old(self).program.source@,
    {
        let word1 = cursor | if has_index { 0x8000_0000u32 } else { 0 };
        self.emit3(op::ITER_NEXT, collection, word1, 0, line);
    }
}

impl<C> Chunk<C> {
    /// Every recorded constant key names a slot of the constant table.
    pub open spec fn keys_fit(&self) -> bool {
        forall|k: int| 0 <= k < self.runtime.constant_keys().len()
            ==> (#[trigger] self.runtime.constant_keys()[k]).1 < self.program.constants@.len()
    }

    /// Adds a constant and gives its index in the constant table. A
    /// constant with a key that an earlier constant had is not added again:
    /// the earlier index is given instead. Constants without a key are
    /// always added.
    pub fn add_constant(&mut self, value: C, key: Option<ConstantKey>) -> (idx: u32)
        ensures
            match key {
                Some(k) => match key_slot(old(self).runtime.constant_keys(), k@) {
                    Some(earlier) => {
                        &&& idx == earlier
                        &&& final(self).program.constants@ == old(self).program.constants@
                        &&& final(self).runtime.constant_keys() == old(self).runtime.constant_keys()
                    },
                    None => {
                        &&& idx == old(self).program.constants@.len() as u32
                        &&& final(self).program.constants@ == old(self).program.constants@.push(value)
                        &&& final(self).runtime.constant_keys() == old(self).runtime.constant_keys().push((k@, idx))
                    },
                },
                None => {
                    &&& idx == old(self).program.constants@.len() as u32
                    &&& final(self).program.constants@ == old(self).program.constants@.push(value)
                    &&& final(self).runtime.constant_keys() == old(self).runtime.constant_keys()
                },
            },
            key matches Some(k) ==> key_slot(final(self).runtime.constant_keys(), k@) == Some(idx),
            old(self).keys_fit() && old(self).program.constants@.len() < u32::MAX ==> {
                &&& final(self).keys_fit()
                &&& (idx as int) < final(self).program.constants@.len()
            },
            final(self).program.code@ == old(self).program.code@,
            final(self).program.lines@ == old(self).program.lines@,
            final(self).program.filename@ == old(self).program.filename@,
            final(self).program.source@ == old(self).program.source@,
            final(self).runtime.caches@ == old(self).runtime.caches@,
    {
        match key {
            Some(k) => {
                match self.runtime.constant_slot(&k) {
                    Some(earlier) => {
                        proof {
                            lemma_key_slot_recorded(self.runtime.constant_keys(), k@);
                        }
                        earlier
                    },
                    None => {
                        let idx = self.program.constants.len() as u32;
                        self.program.constants.push(value);
                        proof {
                            lemma_key_slot_push(self.runtime.constant_keys(), k@, idx);
                        }
                        self.runtime.record_constant(k, idx);
                        idx
                    },
                }
            },
            None => {
                self.program.constants.push(value);
                (self.program.constants.len() - 1) as u32
            },
        }
    }

    /// Adds a constant whose key is derived from `model`, the constant as
    /// sharing reads it (see `ConstantKey::from_constant`).
    pub fn add_model_constant(&mut self, value: C, model: &ConstantModel) -> (idx: u32)
        ensures
            match key_of(*model) {
                Some(k) => match key_slot(old(self).runtime.constant_keys(), k) {
                    Some(earlier) => {
                        &&& idx == earlier
                        &&& final(self).program.constants@ == old(self).program.constants@
                    },
                    None => {
                        &&& idx == old(self).program.constants@.len() as u32
                        &&& final(self).program.constants@ == old(self).program.constants@.push(value)
                        &&& final(self).runtime.constant_keys() == old(self).runtime.constant_keys().push((k, idx))
                    },
                },
                None => {
                    &&& idx == old(self).program.constants@.len() as u32
                    &&& final(self).program.constants@ == old(self).program.constants@.push(value)
                    &&& final(self).runtime.constant_keys() == old(self).runtime.constant_keys()
                },
            },
    {
        let key = ConstantKey::from_constant(model);
        self.add_constant(value, key)
    }
}

impl<C> Chunk<C> {
    /// Makes room for a cache slot per word of the code.
    pub fn ensure_caches(&mut self)
        ensures
            final(self).runtime.caches@ == grown(old(self).runtime.caches@, old(self).program.code@.len() as int),
            final(self).runtime.constant_keys() == old(self).runtime.constant_keys(),
            final(self).program == old(self).program,
    {
        let n = self.program.code.len();
        self.runtime.ensure_caches(n);
    }

    pub fn cache_get(&self, ip: usize) -> (r: Option<IcEntry>)
        ensures
            r == cache_at(self.runtime.caches@, ip as int),
    {
        self.runtime.cache_get(ip)
    }

    pub fn cache_set(&mut self, ip: usize, entry: IcEntry)
        requires
            ip < usize::MAX,
        ensures
            final(self).runtime.caches@ == grown(old(self).runtime.caches@, ip + 1).update(ip as int, Some(entry)),
            final(self).runtime.constant_keys() == old(self).runtime.constant_keys(),
            final(self).program == old(self).program,
    {
        self.runtime.cache_set(ip, entry);
    }

    /// Records that the access at `ip` saw `shape_id` (see
    /// `ChunkRuntime::cache_add_shape`).
    pub fn cache_add_shape(&mut self, ip: usize, shape_id: usize, index: usize)
        requires
            ip < usize::MAX,
            entry_ok(cache_at(old(self).runtime.caches@, ip as int)),
        ensures
            final(self).runtime.caches@ == match add_shape_spec(
                cache_at(old(self).runtime.caches@, ip as int),
                shape_id,
                index,
            ) {
                Some(e) => grown(old(self).runtime.caches@, ip + 1).update(ip as int, Some(e)),
                None => old(self).runtime.caches@,
            },
            final(self).runtime.constant_keys() == old(self).runtime.constant_keys(),
            final(self).program == old(self).program,
    {
        self.runtime.cache_add_shape(ip, shape_id, index);
    }

    pub fn cache_slice(&self, start: usize, len: usize) -> (r: Vec<Option<IcEntry>>)
        requires
            start + len <= usize::MAX,
        ensures
            r@ == Seq::new(len as nat, |k: int| cache_at(self.runtime.caches@, start + k)),
    {
        self.runtime.cache_slice(start, len)
    }

    /// Nothing to do: functions live in the constant table as they are.
    pub fn reconstruct_functions(&mut self)
        ensures
            *final(self) == *old(self),
    {
    }

    pub fn code(&self) -> (r: &Vec<u32>)
        ensures
            r@ == self.program.code@,
    {
        &self.program.code
    }

    pub fn constants(&self) -> (r: &Vec<C>)
        ensures
            r@ == self.program.constants@,
    {
        &self.program.constants
    }

    pub fn lines(&self) -> (r: &Vec<u32>)
        ensures
            r@ == self.program.lines@,
    {
        &self.program.lines
    }

    pub fn filename(&self) -> (r: &String)
        ensures
            r@ == self.program.filename@,
    {
        &self.program.filename
    }

    pub fn source(&self) -> (r: &String)
        ensures
            r@ == self.program.source@,
    {
        &self.program.source
    }

    pub fn code_mut(&mut self) -> (r: &mut Vec<u32>)
        ensures
            *r == old(self).program.code,
            final(self).program.code == *final(r),
            final(self).program.constants == old(self).program.constants,
            final(self).program.lines == old(self).program.lines,
            final(self).program.filename == old(self).program.filename,
            final(self).program.source == old(self).program.source,
            final(self).runtime == old(self).runtime,
    {
        &mut self.program.code
    }

    pub fn constants_mut(&mut self) -> (r: &mut Vec<C>)
        ensures
            *r == old(self).program.constants,
            final(self).program.constants == *final(r),
            final(self).program.code == old(self).program.code,
            final(self).program.lines == old(self).program.lines,
            final(self).program.filename == old(self).program.filename,
            final(self).program.source == old(self).program.source,
            final(self).runtime == old(self).runtime,
    {
        &mut self.program.constants
    }

    pub fn lines_mut(&mut self) -> (r: &mut Vec<u32>)
        ensures
            *r == old(self).program.lines,
            final(self).program.lines == *final(r),
            final(self).program.code == old(self).program.code,
            final(self).program.constants == old(self).program.constants,
            final(self).program.filename == old(self).program.filename,
            final(self).program.source == old(self).program.source,
            final(self).runtime == old(self).runtime,
    {
        &mut self.program.lines
    }

    pub fn set_filename(&mut self, filename: String)
        ensures
            final(self).program.filename == filename,
            final(self).program.code == old(self).program.code,
            final(self).program.constants == old(self).program.constants,
            final(self).program.lines == old(self).program.lines,
            final(self).program.source == old(self).program.source,
            final(self).runtime == old(self).runtime,
    {
        self.program.filename = filename;
    }

    pub fn set_source(&mut self, source: String)
        ensures
            final(self).program.source == source,
            final(self).program.code == old(self).program.code,
            final(self).program.constants == old(self).program.constants,
            final(self).program.lines == old(self).program.lines,
            final(self).program.filename == old(self).program.filename,
            final(self).runtime == old(self).runtime,
    {
        self.program.source = source;
    }
}

impl<C: Clone> Chunk<C> {
    /// A chunk with the same program and fresh runtime state: no caches
    /// and no recorded constant keys.
    pub fn clone_without_runtime_caches(&self) -> (c: Self)
        ensures
            c.program.code@ == self.program.code@,
            c.program.lines@ == self.program.lines@,
            c.program.filename@ == self.program.filename@,
            c.program.source@ == self.program.source@,
            c.program.constants@.len() == self.program.constants@.len(),
            forall|i: int| 0 <= i < self.program.constants@.len() ==>
                cloned::<C>(self.program.constants@[i], #[trigger] c.program.constants@[i]),
            c.runtime.caches@.len() == 0,
            c.runtime.constant_keys().len() == 0,
    {
        let mut constants: Vec<C> = Vec::new();
        let mut i: usize = 0;
        while i < self.program.constants.len()
            invariant
                i <= self.program.constants@.len(),
                constants@.len() == i,
                forall|j: int| 0 <= j < i ==>
                    cloned::<C>(self.program.constants@[j], #[trigger] constants@[j]),
            decreases self.program.constants.len() - i,
        {
            constants.push(self.program.constants[i].clone());
            i = i + 1;
        }
        Chunk {
            program: ChunkProgram {
                code: self.program.code.clone(),
                constants,
                lines: self.program.lines.clone(),
                filename: self.program.filename.clone(),
                source: self.program.source.clone(),
            },
            runtime: ChunkRuntime::default(),
        }
    }
}

} // verus!
