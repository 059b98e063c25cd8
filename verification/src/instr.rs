//! Assembly instructions, their encoding into CHIP-8 machine code, and the
//! label table that resolves symbolic jump targets.

use vstd::prelude::*;

verus! {

/// One line of assembly.
#[derive(Debug, PartialEq, Clone)]
pub enum Instr {
    Cls,
    Ret,
    J(Addr),
    Call(Addr),
    /// `jri0 NNN`: jump to `NNN + V0` (the classic `BNNN`)
    Jri0(u16),
    /// `jri $x, NN`
    Jri(u8, u8),
    Seqi(u8, u8),
    Snei(u8, u8),
    SeqReg(u8, u8),
    Sne(u8, u8),
    Sk(u8),
    Snk(u8),
    /// `seti $x, NN`
    Seti(u8, u8),
    /// `seti I, 0xNNN`
    SetAddrI(Addr),
    Addi(u8, u8),
    SetReg(u8, u8),
    Or(u8, u8),
    And(u8, u8),
    Xor(u8, u8),
    Add(u8, u8),
    Subf(u8, u8),
    /// `srlf $x, $y`; the one-operand form `srlf $x` has `y = 0`
    Srlf(u8, u8),
    Subnf(u8, u8),
    /// See `Srlf`
    Sllf(u8, u8),
    /// `add I, $x`
    AddMemI(u8),
    Rand(u8, u8),
    Sprite(u8, u8, u8),
    Bcd(u8),
    /// `set $x, DELAY`
    GetDelay(u8),
    /// `set $x, KEY`
    GetKey(u8),
    /// `set DELAY, $x`
    SetDelay(u8),
    /// `set SOUND, $x`
    SetSound(u8),
    /// `set I, FONT[$x]`
    SetFont(u8),
    /// `set [I], $x`
    SetMemI(u8),
    /// `set $x, [I]`
    GetMemI(u8),
    /// `.word NNNN`
    Word(u16),
    /// `.byte NN`
    Byte(u8),
    /// `label:`
    Label(String),
}

/// A jump or index target: a number or a label.
#[derive(Debug, PartialEq, Clone)]
pub enum Addr {
    Val(u16),
    Label(String),
}

/// The mathematical form of [`Addr`].
pub ghost enum AddrV {
    Val(u16),
    Label(Seq<char>),
}

/// The mathematical form of [`Instr`].
pub ghost enum InstrV {
    Cls,
    Ret,
    J(AddrV),
    Call(AddrV),
    Jri0(u16),
    Jri(u8, u8),
    Seqi(u8, u8),
    Snei(u8, u8),
    SeqReg(u8, u8),
    Sne(u8, u8),
    Sk(u8),
    Snk(u8),
    Seti(u8, u8),
    SetAddrI(AddrV),
    Addi(u8, u8),
    SetReg(u8, u8),
    Or(u8, u8),
    And(u8, u8),
    Xor(u8, u8),
    Add(u8, u8),
    Subf(u8, u8),
    Srlf(u8, u8),
    Subnf(u8, u8),
    Sllf(u8, u8),
    AddMemI(u8),
    Rand(u8, u8),
    Sprite(u8, u8, u8),
    Bcd(u8),
    GetDelay(u8),
    GetKey(u8),
    SetDelay(u8),
    SetSound(u8),
    SetFont(u8),
    SetMemI(u8),
    GetMemI(u8),
    Word(u16),
    Byte(u8),
    Label(Seq<char>),
}

impl View for Addr {
    type V = AddrV;

    open spec fn view(&self) -> AddrV {
        match self {
            Addr::Val(v) => AddrV::Val(*v),
            Addr::Label(s) => AddrV::Label(s@),
        }
    }
}

impl View for Instr {
    type V = InstrV;

    open spec fn view(&self) -> InstrV {
        match self {
            Instr::Cls => InstrV::Cls,
            Instr::Ret => InstrV::Ret,
            Instr::J(a) => InstrV::J(a@),
            Instr::Call(a) => InstrV::Call(a@),
            Instr::Jri0(o) => InstrV::Jri0(*o),
            Instr::Jri(x, nn) => InstrV::Jri(*x, *nn),
            Instr::Seqi(x, nn) => InstrV::Seqi(*x, *nn),
            Instr::Snei(x, nn) => InstrV::Snei(*x, *nn),
            Instr::SeqReg(x, y) => InstrV::SeqReg(*x, *y),
            Instr::Sne(x, y) => InstrV::Sne(*x, *y),
            Instr::Sk(x) => InstrV::Sk(*x),
            Instr::Snk(x) => InstrV::Snk(*x),
            Instr::Seti(x, nn) => InstrV::Seti(*x, *nn),
            Instr::SetAddrI(a) => InstrV::SetAddrI(a@),
            Instr::Addi(x, nn) => InstrV::Addi(*x, *nn),
            Instr::SetReg(x, y) => InstrV::SetReg(*x, *y),
            Instr::Or(x, y) => InstrV::Or(*x, *y),
            Instr::And(x, y) => InstrV::And(*x, *y),
            Instr::Xor(x, y) => InstrV::Xor(*x, *y),
            Instr::Add(x, y) => InstrV::Add(*x, *y),
            Instr::Subf(x, y) => InstrV::Subf(*x, *y),
            Instr::Srlf(x, y) => InstrV::Srlf(*x, *y),
            Instr::Subnf(x, y) => InstrV::Subnf(*x, *y),
            Instr::Sllf(x, y) => InstrV::Sllf(*x, *y),
            Instr::AddMemI(x) => InstrV::AddMemI(*x),
            Instr::Rand(x, nn) => InstrV::Rand(*x, *nn),
            Instr::Sprite(x, y, n) => InstrV::Sprite(*x, *y, *n),
            Instr::Bcd(x) => InstrV::Bcd(*x),
            Instr::GetDelay(x) => InstrV::GetDelay(*x),
            Instr::GetKey(x) => InstrV::GetKey(*x),
            Instr::SetDelay(x) => InstrV::SetDelay(*x),
            Instr::SetSound(x) => InstrV::SetSound(*x),
            Instr::SetFont(x) => InstrV::SetFont(*x),
            Instr::SetMemI(x) => InstrV::SetMemI(*x),
            Instr::GetMemI(x) => InstrV::GetMemI(*x),
            Instr::Word(w) => InstrV::Word(*w),
            Instr::Byte(b) => InstrV::Byte(*b),
            Instr::Label(s) => InstrV::Label(s@),
        }
    }
}

/// The views of a sequence of instructions.
pub open spec fn instrs_view(s: Seq<Instr>) -> Seq<InstrV> {
    s.map_values(|i: Instr| i@)
}

// ---------------------------------------------------------------------------
// Encoding

/// `#X##`
pub open spec fn reg_x(x: u8) -> u16 {
    (x as u16) << 8u16
}

/// `##Y#`
pub open spec fn reg_y(y: u8) -> u16 {
    (y as u16) << 4u16
}

/// The value of an address operand under a label table.
pub open spec fn addr_value(a: AddrV, labels: Map<Seq<char>, u16>) -> u16 {
    match a {
        AddrV::Val(v) => v,
        AddrV::Label(s) => labels[s],
    }
}

/// Whether an address operand can be resolved (its label, if any, is defined).
pub open spec fn addr_resolves(a: AddrV, labels: Map<Seq<char>, u16>) -> bool {
    match a {
        AddrV::Val(_) => true,
        AddrV::Label(s) => labels.contains_key(s),
    }
}

/// Whether every label that `i` refers to is in `labels`.
pub open spec fn instr_resolves(i: InstrV, labels: Map<Seq<char>, u16>) -> bool {
    match i {
        InstrV::J(a) => addr_resolves(a, labels),
        InstrV::Call(a) => addr_resolves(a, labels),
        InstrV::SetAddrI(a) => addr_resolves(a, labels),
        _ => true,
    }
}

/// The 16-bit word that an instruction other than `.byte` and a label encodes to.
pub open spec fn instr_word(i: InstrV, labels: Map<Seq<char>, u16>) -> u16 {
    match i {
        InstrV::Cls => 0x00E0,
        InstrV::Ret => 0x00EE,
        InstrV::J(a) => 0x1000u16 | addr_value(a, labels),
        InstrV::Call(a) => 0x2000u16 | addr_value(a, labels),
        InstrV::Jri0(o) => 0xB000u16 | o,
        InstrV::Jri(x, nn) => 0xB000u16 | reg_x(x) | nn as u16,
        InstrV::Seqi(x, nn) => 0x3000u16 | reg_x(x) | nn as u16,
        InstrV::Snei(x, nn) => 0x4000u16 | reg_x(x) | nn as u16,
        InstrV::SeqReg(x, y) => 0x5000u16 | reg_x(x) | reg_y(y),
        InstrV::Sne(x, y) => 0x9000u16 | reg_x(x) | reg_y(y),
        InstrV::Sk(x) => 0xE09Eu16 | reg_x(x),
        InstrV::Snk(x) => 0xE0A1u16 | reg_x(x),
        InstrV::SetAddrI(a) => 0xA000u16 | addr_value(a, labels),
        InstrV::Seti(x, nn) => 0x6000u16 | reg_x(x) | nn as u16,
        InstrV::Addi(x, nn) => 0x7000u16 | reg_x(x) | nn as u16,
        InstrV::SetReg(x, y) => 0x8000u16 | reg_x(x) | reg_y(y),
        InstrV::Or(x, y) => 0x8001u16 | reg_x(x) | reg_y(y),
        InstrV::And(x, y) => 0x8002u16 | reg_x(x) | reg_y(y),
        InstrV::Xor(x, y) => 0x8003u16 | reg_x(x) | reg_y(y),
        InstrV::Add(x, y) => 0x8004u16 | reg_x(x) | reg_y(y),
        InstrV::Subf(x, y) => 0x8005u16 | reg_x(x) | reg_y(y),
        InstrV::Srlf(x, y) => 0x8006u16 | reg_x(x) | reg_y(y),
        InstrV::Subnf(x, y) => 0x8007u16 | reg_x(x) | reg_y(y),
        InstrV::Sllf(x, y) => 0x800Eu16 | reg_x(x) | reg_y(y),
        InstrV::AddMemI(x) => 0xF01Eu16 | reg_x(x),
        InstrV::Rand(x, nn) => 0xC000u16 | reg_x(x) | nn as u16,
        InstrV::Sprite(x, y, n) => 0xD000u16 | reg_x(x) | reg_y(y) | n as u16,
        InstrV::Bcd(x) => 0xF033u16 | reg_x(x),
        InstrV::GetDelay(x) => 0xF007u16 | reg_x(x),
        InstrV::GetKey(x) => 0xF00Au16 | reg_x(x),
        InstrV::SetDelay(x) => 0xF015u16 | reg_x(x),
        InstrV::SetSound(x) => 0xF018u16 | reg_x(x),
        InstrV::SetFont(x) => 0xF029u16 | reg_x(x),
        InstrV::SetMemI(x) => 0xF055u16 | reg_x(x),
        InstrV::GetMemI(x) => 0xF065u16 | reg_x(x),
        InstrV::Word(w) => w,
        InstrV::Byte(_) => 0,
        InstrV::Label(_) => 0,
    }
}

/// A word as two bytes, most significant first.
pub open spec fn be_bytes(w: u16) -> Seq<u8> {
    seq![(w as int / 256) as u8, (w as int % 256) as u8]
}

/// The machine code of one instruction: two bytes, one for `.byte`, none for
/// a label.
pub open spec fn instr_bytes(i: InstrV, labels: Map<Seq<char>, u16>) -> Seq<u8> {
    match i {
        InstrV::Byte(b) => seq![b],
        InstrV::Label(_) => Seq::empty(),
        _ => be_bytes(instr_word(i, labels)),
    }
}

// ---------------------------------------------------------------------------
// The label table

/// The label `i` jumps to or loads into `I`, if it names one.
pub open spec fn label_ref(i: InstrV) -> Option<Seq<char>> {
    match i {
        InstrV::J(AddrV::Label(s)) => Some(s),
        InstrV::Call(AddrV::Label(s)) => Some(s),
        InstrV::SetAddrI(AddrV::Label(s)) => Some(s),
        _ => None,
    }
}

/// The number of instructions in `s` that are not labels.
pub open spec fn non_labels(s: Seq<InstrV>) -> nat
    decreases s.len(),
{
    if s.len() == 0 {
        0
    } else {
        non_labels(s.drop_last()) + if s.last() is Label { 0nat } else { 1nat }
    }
}

/// The address of the instruction that follows `s` in a program loaded at
/// `0x200`: every instruction except a label takes two bytes.
pub open spec fn next_address(s: Seq<InstrV>) -> int {
    0x200 + 2 * (non_labels(s) as int)
}

/// Each label of `s` mapped to the address of the instruction after its first
/// definition.
pub open spec fn label_table(s: Seq<InstrV>) -> Map<Seq<char>, u16>
    decreases s.len(),
{
    if s.len() == 0 {
        Map::empty()
    } else {
        let t = label_table(s.drop_last());
        match s.last() {
            InstrV::Label(n) => if t.contains_key(n) {
                t
            } else {
                t.insert(n, next_address(s.drop_last()) as u16)
            },
            _ => t,
        }
    }
}

/// `"Duplicate label <name>"` for each definition of a label that was
/// already defined, in order.
pub open spec fn duplicate_errors(s: Seq<InstrV>) -> Seq<Seq<char>>
    decreases s.len(),
{
    if s.len() == 0 {
        Seq::empty()
    } else {
        let e = duplicate_errors(s.drop_last());
        match s.last() {
            InstrV::Label(n) => if label_table(s.drop_last()).contains_key(n) {
                e.push("Duplicate label "@ + n)
            } else {
                e
            },
            _ => e,
        }
    }
}

/// The labels that `s` refers to, each once, in order of first reference.
pub open spec fn referenced(s: Seq<InstrV>) -> Seq<Seq<char>>
    decreases s.len(),
{
    if s.len() == 0 {
        Seq::empty()
    } else {
        let r = referenced(s.drop_last());
        match label_ref(s.last()) {
            Some(n) => if r.contains(n) { r } else { r.push(n) },
            None => r,
        }
    }
}

/// `"Undefined label <name>"` for each of `refs` missing from `table`, in order.
pub open spec fn undefined_errors(refs: Seq<Seq<char>>, table: Map<Seq<char>, u16>) -> Seq<Seq<char>>
    decreases refs.len(),
{
    if refs.len() == 0 {
        Seq::empty()
    } else {
        let e = undefined_errors(refs.drop_last(), table);
        if table.contains_key(refs.last()) {
            e
        } else {
            e.push("Undefined label "@ + refs.last())
        }
    }
}

/// All the label errors of a program: duplicates first, then undefined labels.
pub open spec fn label_errors(s: Seq<InstrV>) -> Seq<Seq<char>> {
    duplicate_errors(s) + undefined_errors(referenced(s), label_table(s))
}

/// A set of label definitions, each name at most once.
pub struct Labels {
    entries: Vec<(String, u16)>,
}

impl Labels {
    /// The names, in definition order.
    pub closed spec fn names(&self) -> Seq<Seq<char>> {
        self.entries@.map_values(|e: (String, u16)| e.0@)
    }

    #[verifier::type_invariant]
    closed spec fn distinct(&self) -> bool {
        forall|a: int, b: int|
            0 <= a < b < self.entries@.len() ==> #[trigger] self.names()[a] != #[trigger] self.names()[b]
    }

    spec fn index_of(&self, name: Seq<char>) -> int {
        choose|k: int| 0 <= k < self.entries@.len() && self.names()[k] == name
    }
}

impl View for Labels {
    type V = Map<Seq<char>, u16>;

    closed spec fn view(&self) -> Map<Seq<char>, u16> {
        Map::new(
            |name: Seq<char>| exists|k: int| 0 <= k < self.entries@.len() && self.names()[k] == name,
            |name: Seq<char>| self.entries@[self.index_of(name)].1,
        )
    }
}

impl Labels {
    /// An empty table.
    pub fn new() -> (l: Self)
        ensures
            l@ == Map::<Seq<char>, u16>::empty(),
    {
        let l = Labels { entries: Vec::new() };
        assert(l@ =~= Map::<Seq<char>, u16>::empty());
        l
    }

    /// The address of `name`, if it is defined.
    pub fn get(&self, name: &String) -> (r: Option<u16>)
        ensures
            r == (if self@.contains_key(name@) { Some(self@[name@]) } else { None }),
    {
        proof { use_type_invariant(self); }
        let mut k: usize = 0;
        while k < self.entries.len()
            invariant
                k <= self.entries@.len(),
                forall|j: int| 0 <= j < k ==> self.names()[j] != name@,
            decreases self.entries@.len() - k,
        {
            if self.entries[k].0 == *name {
                proof {
                    use_type_invariant(self);
                    assert(self.names()[k as int] == name@);
                    assert(exists|k2: int| 0 <= k2 < self.entries@.len() && self.names()[k2] == name@);
                    let j = self.index_of(name@);
                    if j > k {
                        assert(self.names()[k as int] != self.names()[j]);
                    }
                }
                return Some(self.entries[k].1);
            }
            k += 1;
        }
        assert(!self@.contains_key(name@));
        None
    }

    /// Defines `name` at `addr` unless it is already defined; tells whether it
    /// was added.
    pub fn define(&mut self, name: String, addr: u16) -> (added: bool)
        ensures
            added == !old(self)@.contains_key(name@),
            final(self)@ == (if added { old(self)@.insert(name@, addr) } else { old(self)@ }),
    {
        proof { use_type_invariant(&*self); }
        let probe = self.get(&name);
        if probe.is_some() {
            return false;
        }
        let ghost before = self@;
        let ghost old_entries = self.entries@;
        let ghost old_names = self.names();
        let mut entries: Vec<(String, u16)> = Vec::new();
        std::mem::swap(&mut entries, &mut self.entries);
        let ghost n = name@;
        entries.push((name, addr));
        proof {
            let nn = entries@.map_values(|e: (String, u16)| e.0@);
            assert(nn =~= old_names.push(n));
            assert forall|k: int| 0 <= k < old_names.len() implies #[trigger] old_names[k] != n by {
                if old_names[k] == n {
                    assert(before.contains_key(n));
                }
            }
            assert forall|a: int, b: int| 0 <= a < b < entries@.len() implies #[trigger] nn[a] != #[trigger] nn[b] by {
                if b < old_names.len() {
                    assert(old_names[a] != old_names[b]);
                }
            }
        }
        self.entries = entries;
        proof {
            assert(self.names() =~= old_names.push(n));
            assert forall|nm: Seq<char>| #[trigger] self@.contains_key(nm) == before.insert(n, addr).contains_key(nm) by {
                if nm != n && self@.contains_key(nm) {
                    let k = choose|k: int| 0 <= k < self.entries@.len() && self.names()[k] == nm;
                    assert(k < old_entries.len());
                }
                if before.contains_key(nm) {
                    let k = choose|k: int| 0 <= k < old_names.len() && #[trigger] old_names[k] == nm;
                    assert(self.names()[k] == nm);
                }
                if nm == n {
                    assert(self.names()[old_entries.len() as int] == n);
                }
            }
            assert forall|nm: Seq<char>| #[trigger] self@.contains_key(nm) implies self@[nm] == before.insert(n, addr)[nm] by {
                let j = self.index_of(nm);
                if nm == n {
                    assert(j == old_entries.len());
                } else {
                    let k = choose|k: int| 0 <= k < old_names.len() && #[trigger] old_names[k] == nm;
                    assert(self.names()[k] == nm);
                    assert(j == k);
                }
            }
            assert(self@ =~= before.insert(n, addr));
        }
        true
    }
}

impl Addr {
    /// The value of the address under `labels`.
    fn lookup(&self, labels: &Labels) -> (r: u16)
        requires
            addr_resolves(self@, labels@),
        ensures
            r == addr_value(self@, labels@),
    {
        match &self {
            Addr::Val(v) => *v,
            Addr::Label(s) => {
                let r = labels.get(s);
                r.unwrap()
            },
        }
    }
}

impl Instr {
    /// `#X##`
    fn x(&self, x: &u8) -> (r: u16)
        ensures
            r == reg_x(*x),
    {
        (*x as u16) << 8
    }

    /// `##Y#`
    fn y(&self, y: &u8) -> (r: u16)
        ensures
            r == reg_y(*y),
    {
        (*y as u16) << 4
    }

    /// The machine code for this instruction; labels must be defined in `labels`.
    pub fn to_bytes(&self, labels: &Labels) -> (r: Vec<u8>)
        requires
            instr_resolves(self@, labels@),
        ensures
            r@ == instr_bytes(self@, labels@),
    {
        let word: u16 = match self {
            Instr::Cls => 0x00E0,
            Instr::Ret => 0x00EE,
            Instr::J(addr) => 0x1000 | addr.lookup(labels),
            Instr::Call(addr) => 0x2000 | addr.lookup(labels),
            Instr::Jri0(offset) => 0xB000 | *offset,
            Instr::Jri(x, nn) => 0xB000 | self.x(x) | *nn as u16,
            Instr::Seqi(x, nn) => 0x3000 | self.x(x) | *nn as u16,
            Instr::Snei(x, nn) => 0x4000 | self.x(x) | *nn as u16,
            Instr::SeqReg(x, y) => 0x5000 | self.x(x) | self.y(y),
            Instr::Sne(x, y) => 0x9000 | self.x(x) | self.y(y),
            Instr::Sk(x) => 0xE09E | self.x(x),
            Instr::Snk(x) => 0xE0A1 | self.x(x),
            Instr::SetAddrI(addr) => 0xA000 | addr.lookup(labels),
            Instr::Seti(x, nn) => 0x6000 | self.x(x) | *nn as u16,
            Instr::Addi(x, nn) => 0x7000 | self.x(x) | *nn as u16,
            Instr::SetReg(x, y) => 0x8000 | self.x(x) | self.y(y),
            Instr::Or(x, y) => 0x8001 | self.x(x) | self.y(y),
            Instr::And(x, y) => 0x8002 | self.x(x) | self.y(y),
            Instr::Xor(x, y) => 0x8003 | self.x(x) | self.y(y),
            Instr::Add(x, y) => 0x8004 | self.x(x) | self.y(y),
            Instr::Subf(x, y) => 0x8005 | self.x(x) | self.y(y),
            Instr::Srlf(x, y) => 0x8006 | self.x(x) | self.y(y),
            Instr::Subnf(x, y) => 0x8007 | self.x(x) | self.y(y),
            Instr::Sllf(x, y) => 0x800E | self.x(x) | self.y(y),
            Instr::AddMemI(x) => 0xF01E | self.x(x),
            Instr::Rand(x, nn) => 0xC000 | self.x(x) | *nn as u16,
            Instr::Sprite(x, y, n) => 0xD000 | self.x(x) | self.y(y) | *n as u16,
            Instr::Bcd(x) => 0xF033 | self.x(x),
            Instr::GetDelay(x) => 0xF007 | self.x(x),
            Instr::GetKey(x) => 0xF00A | self.x(x),
            Instr::SetDelay(x) => 0xF015 | self.x(x),
            Instr::SetSound(x) => 0xF018 | self.x(x),
            Instr::SetFont(x) => 0xF029 | self.x(x),
            Instr::SetMemI(x) => 0xF055 | self.x(x),
            Instr::GetMemI(x) => 0xF065 | self.x(x),
            Instr::Word(word) => *word,
            Instr::Byte(byte) => {
                let mut out = Vec::new();
                out.push(*byte);
                assert(out@ =~= instr_bytes(self@, labels@));
                return out;
            },
            Instr::Label(_) => {
                let out = Vec::new();
                assert(out@ =~= instr_bytes(self@, labels@));
                return out;
            },
        };
        assert(word == instr_word(self@, labels@));
        let hi = (word >> 8) as u8;
        let lo = (word & 0xFF) as u8;
        assert(word >> 8u16 == word / 256 && word & 0xFF == word % 256) by (bit_vector);
        let mut out = Vec::new();
        out.push(hi);
        out.push(lo);
        assert(out@ =~= instr_bytes(self@, labels@));
        out
    }
}


/// The views of a list of strings.
pub open spec fn strings_view(v: Seq<String>) -> Seq<Seq<char>> {
    v.map_values(|s: String| s@)
}

proof fn lemma_non_labels_prefix(s: Seq<InstrV>, i: int)
    requires
        0 <= i <= s.len(),
    ensures
        non_labels(s.take(i)) <= non_labels(s),
    decreases s.len(),
{
    if i < s.len() {
        assert(s.drop_last().take(i) =~= s.take(i));
        lemma_non_labels_prefix(s.drop_last(), i);
    } else {
        assert(s.take(i) =~= s);
    }
}

/// Whether `names` holds `name`.
fn contains_name(names: &Vec<String>, name: &String) -> (r: bool)
    ensures
        r == strings_view(names@).contains(name@),
{
    let mut k: usize = 0;
    while k < names.len()
        invariant
            k <= names@.len(),
            forall|j: int| 0 <= j < k ==> strings_view(names@)[j] != name@,
        decreases names@.len() - k,
    {
        if names[k] == *name {
            assert(strings_view(names@)[k as int] == name@);
            return true;
        }
        k += 1;
    }
    false
}

/// `text` followed by `name`.
fn message_with(text: &str, name: &String) -> (m: String)
    ensures
        m@ == text@ + name@,
{
    let mut m = String::from_str(text);
    m.append(name.as_str());
    m
}

impl Instr {
    /// Assigns each label the address of the instruction after it (the
    /// program starts at `0x200`; every instruction other than a label counts
    /// two bytes), keeping the first definition of a name. Fails with one
    /// message per duplicate definition, in order, followed by one message per
    /// label referenced but never defined, in order of first reference.
    pub fn label_lookup(instrs: &[Instr]) -> (r: Result<Labels, Vec<String>>)
        requires
            non_labels(instrs_view(instrs@)) <= 32511,
        ensures
            match r {
                Ok(labels) => label_errors(instrs_view(instrs@)).len() == 0
                    && labels@ == label_table(instrs_view(instrs@)),
                Err(errors) => label_errors(instrs_view(instrs@)).len() > 0
                    && strings_view(errors@) == label_errors(instrs_view(instrs@)),
            },
    {
        let ghost v = instrs_view(instrs@);
        let mut labels = Labels::new();
        let mut referenced_names: Vec<String> = Vec::new();
        let mut addr: u16 = 0x200;
        let mut errors: Vec<String> = Vec::new();
        let mut k: usize = 0;
        assert(v.take(0) =~= Seq::<InstrV>::empty());
        while k < instrs.len()
            invariant
                v == instrs_view(instrs@),
                k <= instrs@.len(),
                non_labels(v) <= 32511,
                labels@ == label_table(v.take(k as int)),
                strings_view(errors@) == duplicate_errors(v.take(k as int)),
                strings_view(referenced_names@) == referenced(v.take(k as int)),
                addr == next_address(v.take(k as int)),
            decreases instrs@.len() - k,
        {
            let ghost pre = v.take(k as int);
            let ghost cur = v.take(k + 1);
            assert(cur.drop_last() =~= pre);
            assert(cur.last() == instrs@[k as int]@);
            let instr = &instrs[k];
            match instr {
                Instr::Label(label) => {
                    let added = labels.define(label.clone(), addr);
                    if !added {
                        let m = message_with("Duplicate label ", label);
                        errors.push(m);
                        assert(strings_view(errors@) =~= duplicate_errors(cur));
                    } else {
                        assert(strings_view(errors@) =~= duplicate_errors(cur));
                    }
                    assert(strings_view(referenced_names@) =~= referenced(cur));
                },
                _ => {
                    let target: Option<&String> = match instr {
                        Instr::J(Addr::Label(s)) => Some(s),
                        Instr::Call(Addr::Label(s)) => Some(s),
                        Instr::SetAddrI(Addr::Label(s)) => Some(s),
                        _ => None,
                    };
                    assert(target matches Some(s) ==> label_ref(cur.last()) == Some(s@));
                    assert(target is None ==> label_ref(cur.last()) is None);
                    if let Some(s) = target {
                        if !contains_name(&referenced_names, s) {
                            referenced_names.push(s.clone());
                        }
                    }
                    assert(strings_view(referenced_names@) =~= referenced(cur));
                    proof {
                        lemma_non_labels_prefix(v, k + 1);
                    }
                    addr += 2;
                },
            }
            k += 1;
        }
        assert(v.take(k as int) =~= v);
        let ghost table = label_table(v);
        let mut j: usize = 0;
        while j < referenced_names.len()
            invariant
                v == instrs_view(instrs@),
                table == label_table(v),
                labels@ == table,
                j <= referenced_names@.len(),
                strings_view(referenced_names@) == referenced(v),
                strings_view(errors@) == duplicate_errors(v)
                    + undefined_errors(strings_view(referenced_names@).take(j as int), table),
            decreases referenced_names@.len() - j,
        {
            let ghost refs = strings_view(referenced_names@);
            assert(refs.take(j + 1).drop_last() =~= refs.take(j as int));
            let name = &referenced_names[j];
            assert(refs.take(j + 1).last() == name@);
            let ghost before = strings_view(errors@);
            if labels.get(name).is_none() {
                let m = message_with("Undefined label ", name);
                errors.push(m);
                assert(strings_view(errors@) =~= before.push("Undefined label "@ + name@));
            }
            assert(strings_view(errors@) =~= duplicate_errors(v) + undefined_errors(refs.take(j + 1), table));
            j += 1;
        }
        assert(strings_view(referenced_names@).take(j as int) =~= strings_view(referenced_names@));
        if errors.len() == 0 {
            Ok(labels)
        } else {
            Err(errors)
        }
    }
}

/// The machine code of a whole program: the instructions' bytes in order.
pub open spec fn program_bytes(s: Seq<InstrV>, labels: Map<Seq<char>, u16>) -> Seq<u8>
    decreases s.len(),
{
    if s.len() == 0 {
        Seq::empty()
    } else {
        program_bytes(s.drop_last(), labels) + instr_bytes(s.last(), labels)
    }
}

proof fn lemma_referenced_has(s: Seq<InstrV>, k: int)
    requires
        0 <= k < s.len(),
        label_ref(s[k]) is Some,
    ensures
        referenced(s).contains(label_ref(s[k])->0),
    decreases s.len(),
{
    let n = label_ref(s[k])->0;
    if k < s.len() - 1 {
        assert(s.drop_last()[k] == s[k]);
        lemma_referenced_has(s.drop_last(), k);
        let r = referenced(s.drop_last());
        let j = choose|j: int| 0 <= j < r.len() && r[j] == n;
        assert(referenced(s)[j] == n);
    } else {
        let r = referenced(s.drop_last());
        if !r.contains(n) {
            assert(referenced(s)[r.len() as int] == n);
        }
    }
}

proof fn lemma_no_undefined(refs: Seq<Seq<char>>, table: Map<Seq<char>, u16>, j: int)
    requires
        undefined_errors(refs, table).len() == 0,
        0 <= j < refs.len(),
    ensures
        table.contains_key(refs[j]),
    decreases refs.len(),
{
    if j < refs.len() - 1 {
        assert(refs.drop_last()[j] == refs[j]);
        lemma_no_undefined(refs.drop_last(), table, j);
    }
}

/// When the label table can be built without errors, every instruction's
/// labels are defined in it, so every instruction can be encoded.
pub proof fn lemma_lookup_resolves(s: Seq<InstrV>, k: int)
    requires
        label_errors(s).len() == 0,
        0 <= k < s.len(),
    ensures
        instr_resolves(s[k], label_table(s)),
{
    if label_ref(s[k]) is Some {
        lemma_referenced_has(s, k);
        let refs = referenced(s);
        let n = label_ref(s[k])->0;
        let j = choose|j: int| 0 <= j < refs.len() && refs[j] == n;
        lemma_no_undefined(refs, label_table(s), j);
    }
}

proof fn lemma_table_has_definition(v: Seq<InstrV>, n: Seq<char>)
    requires
        label_table(v).contains_key(n),
    ensures
        exists|j: int| 0 <= j < v.len() && #[trigger] v[j] == InstrV::Label(n),
    decreases v.len(),
{
    let d = v.drop_last();
    if label_table(d).contains_key(n) {
        lemma_table_has_definition(d, n);
        let j = choose|j: int| 0 <= j < d.len() && #[trigger] d[j] == InstrV::Label(n);
        assert(v[j] == d[j]);
    } else {
        assert(v[v.len() - 1] == InstrV::Label(n));
    }
}

proof fn lemma_table_keeps(s: Seq<InstrV>, k: int, m: int)
    requires
        0 <= k < m <= s.len(),
        s[k] is Label,
        forall|j: int| 0 <= j < k ==> #[trigger] s[j] != s[k],
    ensures
        label_table(s.take(m)).contains_key(s[k]->Label_0),
        label_table(s.take(m))[s[k]->Label_0] == next_address(s.take(k)) as u16,
    decreases m - k,
{
    let n = s[k]->Label_0;
    if m == k + 1 {
        assert(s.take(m).drop_last() =~= s.take(k));
        if label_table(s.take(k)).contains_key(n) {
            lemma_table_has_definition(s.take(k), n);
            let j = choose|j: int| 0 <= j < k && #[trigger] s.take(k)[j] == InstrV::Label(n);
            assert(s[j] == s.take(k)[j]);
        }
    } else {
        lemma_table_keeps(s, k, m - 1);
        assert(s.take(m).drop_last() =~= s.take(m - 1));
    }
}

proof fn lemma_bytes_len(v: Seq<InstrV>, labels: Map<Seq<char>, u16>)
    requires
        forall|j: int| 0 <= j < v.len() ==> !(#[trigger] v[j] is Byte),
    ensures
        program_bytes(v, labels).len() == 2 * non_labels(v),
    decreases v.len(),
{
    if v.len() > 0 {
        let d = v.drop_last();
        assert forall|j: int| 0 <= j < d.len() implies !(#[trigger] d[j] is Byte) by {
            assert(d[j] == v[j]);
        }
        lemma_bytes_len(d, labels);
        assert(v.last() == v[v.len() - 1]);
    }
}

/// A label stands for the address of what follows its first definition: the
/// program is loaded at `0x200`, and the label's value is `0x200` plus the
/// number of bytes before it. (The table counts every instruction as two
/// bytes, so a `.byte` before the label puts the label off by one.)
pub proof fn lemma_label_is_address(s: Seq<InstrV>, k: int, labels: Map<Seq<char>, u16>)
    requires
        0 <= k < s.len(),
        s[k] is Label,
        forall|j: int| 0 <= j < k ==> #[trigger] s[j] != s[k],
        forall|j: int| 0 <= j < k ==> !(#[trigger] s[j] is Byte),
        next_address(s.take(k)) <= 0xFFFF,
    ensures
        label_table(s).contains_key(s[k]->Label_0),
        label_table(s)[s[k]->Label_0] == 0x200 + program_bytes(s.take(k), labels).len(),
{
    lemma_table_keeps(s, k, s.len() as int);
    assert(s.take(s.len() as int) =~= s);
    assert forall|j: int| 0 <= j < s.take(k).len() implies !(#[trigger] s.take(k)[j] is Byte) by {
        assert(s.take(k)[j] == s[j]);
    }
    lemma_bytes_len(s.take(k), labels);
}

/// Assembles a program: resolves its labels (failing as `label_lookup`
/// does) and concatenates the machine code of its instructions.
pub fn assemble(instrs: &[Instr]) -> (r: Result<Vec<u8>, Vec<String>>)
    requires
        non_labels(instrs_view(instrs@)) <= 32511,
    ensures
        match r {
            Ok(bytes) => label_errors(instrs_view(instrs@)).len() == 0
                && bytes@ == program_bytes(instrs_view(instrs@), label_table(instrs_view(instrs@))),
            Err(errors) => label_errors(instrs_view(instrs@)).len() > 0
                && strings_view(errors@) == label_errors(instrs_view(instrs@)),
        },
{
    let ghost v = instrs_view(instrs@);
    let labels = match Instr::label_lookup(instrs) {
        Ok(l) => l,
        Err(errors) => return Err(errors),
    };
    let mut out: Vec<u8> = Vec::new();
    let mut k: usize = 0;
    assert(v.take(0) =~= Seq::<InstrV>::empty());
    while k < instrs.len()
        invariant
            v == instrs_view(instrs@),
            label_errors(v).len() == 0,
            labels@ == label_table(v),
            k <= instrs@.len(),
            out@ == program_bytes(v.take(k as int), labels@),
        decreases instrs@.len() - k,
    {
        proof {
            lemma_lookup_resolves(v, k as int);
            assert(v.take(k + 1).drop_last() =~= v.take(k as int));
        }
        let bytes = instrs[k].to_bytes(&labels);
        let mut b: usize = 0;
        let ghost start = out@;
        while b < bytes.len()
            invariant
                b <= bytes@.len(),
                out@ == start + bytes@.take(b as int),
            decreases bytes@.len() - b,
        {
            out.push(bytes[b]);
            b += 1;
            assert(out@ =~= start + bytes@.take(b as int));
        }
        assert(bytes@.take(b as int) =~= bytes@);
        k += 1;
    }
    assert(v.take(k as int) =~= v);
    Ok(out)
}
} // verus!
