use vstd::prelude::*;
use vstd::utf8::encode_utf8;
use vstd::string::*;

verus! {

/// A reference to the half-open span `[pos, pos + len)` of the tape.
///
/// `pos` is the first cell after the opening `{`; the last cell of the span,
/// `pos + len - 1`, is the matching `}`.
#[derive(Clone, Copy, Debug, PartialEq, Eq, Structural)]
pub struct BlockRef {
    pub pos: usize,
    pub len: usize,
}

/// A host-defined composite value.
///
/// The engine only carries it around: `name` is its type name, `handle`
/// identifies the object in the host's own table. Every operation on the
/// object itself (clone, get, set, commands) is done by the host.
#[derive(Debug)]
pub struct StructRef {
    pub name: String,
    pub handle: u64,
}

/// The universal value of the language.
///
/// A `Float` holds the decimal text of the number; the engine never computes
/// with floats itself, it hands every such operation to the host.
#[derive(Debug)]
pub enum Cell {
    /// Sentinel for "no value"; never executable.
    Empty,
    Integer(i64),
    Float(String),
    Boolean(bool),
    String(String),
    Word(String),
    Block(BlockRef),
    Struct(StructRef),
}

/// What a cell holds, with texts as their characters.
pub enum CellView {
    Empty,
    Integer(i64),
    Float(Seq<char>),
    Boolean(bool),
    String(Seq<char>),
    Word(Seq<char>),
    Block(BlockRef),
    Struct(Seq<char>, u64),
}

impl View for Cell {
    type V = CellView;

    open spec fn view(&self) -> CellView {
        match self {
            Cell::Empty => CellView::Empty,
            Cell::Integer(i) => CellView::Integer(*i),
            Cell::Float(f) => CellView::Float(f@),
            Cell::Boolean(b) => CellView::Boolean(*b),
            Cell::String(s) => CellView::String(s@),
            Cell::Word(w) => CellView::Word(w@),
            Cell::Block(b) => CellView::Block(*b),
            Cell::Struct(s) => CellView::Struct(s.name@, s.handle),
        }
    }
}

/// The views of a sequence of cells.
pub open spec fn views(cells: Seq<Cell>) -> Seq<CellView> {
    cells.map_values(|c: Cell| c@)
}

impl Clone for StructRef {
    fn clone(&self) -> (r: Self)
        ensures
            r == *self,
    {
        StructRef { name: self.name.clone(), handle: self.handle }
    }
}

impl Clone for Cell {
    fn clone(&self) -> (r: Self)
        ensures
            r == *self,
    {
        match self {
            Cell::Empty => Cell::Empty,
            Cell::Integer(i) => Cell::Integer(*i),
            Cell::Float(f) => Cell::Float(f.clone()),
            Cell::Boolean(b) => Cell::Boolean(*b),
            Cell::String(s) => Cell::String(s.clone()),
            Cell::Word(w) => Cell::Word(w.clone()),
            Cell::Block(b) => Cell::Block(*b),
            Cell::Struct(s) => Cell::Struct(s.clone()),
        }
    }
}

impl PartialEq for Cell {
    /// Structural equality: same variant and same contents.
    fn eq(&self, other: &Cell) -> (r: bool) {
        match self {
            Cell::Empty => match other {
                Cell::Empty => true,
                _ => false,
            },
            Cell::Integer(a) => match other {
                Cell::Integer(b) => *a == *b,
                _ => false,
            },
            Cell::Float(a) => match other {
                Cell::Float(b) => string_eq(a, b),
                _ => false,
            },
            Cell::Boolean(a) => match other {
                Cell::Boolean(b) => *a == *b,
                _ => false,
            },
            Cell::String(a) => match other {
                Cell::String(b) => string_eq(a, b),
                _ => false,
            },
            Cell::Word(a) => match other {
                Cell::Word(b) => string_eq(a, b),
                _ => false,
            },
            Cell::Block(a) => match other {
                Cell::Block(b) => a.pos == b.pos && a.len == b.len,
                _ => false,
            },
            Cell::Struct(a) => match other {
                Cell::Struct(b) => string_eq(&a.name, &b.name) && a.handle == b.handle,
                _ => false,
            },
        }
    }
}

/// Whether two texts hold the same characters.
pub fn string_eq(a: &String, b: &String) -> (r: bool)
    ensures
        r == (a@ == b@),
{
    a.eq(b)
}

/// Whether a text holds exactly the characters of `lit`.
pub fn text_is(s: &str, lit: &str) -> (r: bool)
    ensures
        r == (s@ == lit@),
{
    let n = s.unicode_len();
    if n != lit.unicode_len() {
        return false;
    }
    let mut i: usize = 0;
    while i < n
        invariant
            n == s@.len(),
            n == lit@.len(),
            i <= n,
            s@.subrange(0, i as int) == lit@.subrange(0, i as int),
        decreases n - i,
    {
        if s.get_char(i) != lit.get_char(i) {
            return false;
        }
        assert(s@.subrange(0, i + 1) =~= s@.subrange(0, i as int).push(s@[i as int]));
        assert(lit@.subrange(0, i + 1) =~= lit@.subrange(0, i as int).push(lit@[i as int]));
        i = i + 1;
    }
    assert(s@ =~= s@.subrange(0, n as int));
    assert(lit@ =~= lit@.subrange(0, n as int));
    true
}

impl vstd::std_specs::cmp::PartialEqSpecImpl for Cell {
    open spec fn obeys_eq_spec() -> bool {
        true
    }

    open spec fn eq_spec(&self, other: &Cell) -> bool {
        same_cell(*self, *other)
    }
}

/// Structural equality of cells, with texts compared by their characters.
pub open spec fn same_cell(a: Cell, b: Cell) -> bool {
    match (a, b) {
        (Cell::Empty, Cell::Empty) => true,
        (Cell::Integer(x), Cell::Integer(y)) => x == y,
        (Cell::Float(x), Cell::Float(y)) => x@ == y@,
        (Cell::Boolean(x), Cell::Boolean(y)) => x == y,
        (Cell::String(x), Cell::String(y)) => x@ == y@,
        (Cell::Word(x), Cell::Word(y)) => x@ == y@,
        (Cell::Block(x), Cell::Block(y)) => x == y,
        (Cell::Struct(x), Cell::Struct(y)) => x.name@ == y.name@ && x.handle == y.handle,
        _ => false,
    }
}

/// The UTF-8 bytes of a text.
pub open spec fn bytes_of(s: Seq<char>) -> Seq<u8> {
    encode_utf8(s)
}

/// Position of a variant in the ordering of cells of different kinds.
pub open spec fn rank(c: Cell) -> int {
    match c {
        Cell::Empty => 0,
        Cell::Integer(_) => 1,
        Cell::Float(_) => 2,
        Cell::Boolean(_) => 3,
        Cell::String(_) => 4,
        Cell::Word(_) => 5,
        Cell::Block(_) => 6,
        Cell::Struct(_) => 7,
    }
}

/// Three-way comparison of two integers: -1, 0 or 1.
pub open spec fn cmp_int(a: int, b: int) -> int {
    if a < b {
        -1
    } else if a > b {
        1
    } else {
        0
    }
}

/// Lexicographic comparison of byte strings: -1, 0 or 1.
pub open spec fn cmp_bytes(a: Seq<u8>, b: Seq<u8>) -> int
    decreases a.len(),
{
    if a.len() == 0 {
        if b.len() == 0 {
            0
        } else {
            -1
        }
    } else if b.len() == 0 {
        1
    } else if a[0] != b[0] {
        cmp_int(a[0] as int, b[0] as int)
    } else {
        cmp_bytes(a.drop_first(), b.drop_first())
    }
}

/// Shallow ordering of two cells: first by kind, then by contents. Texts
/// order by their UTF-8 bytes, blocks by position then length, host values
/// by type name. Two floats are not ordered here: that is the host's work.
pub open spec fn cmp_cells(a: Cell, b: Cell) -> int {
    if rank(a) != rank(b) {
        cmp_int(rank(a), rank(b))
    } else {
        match (a, b) {
            (Cell::Integer(x), Cell::Integer(y)) => cmp_int(x as int, y as int),
            (Cell::Boolean(x), Cell::Boolean(y)) => cmp_int(
                if x { 1 } else { 0 },
                if y { 1 } else { 0 },
            ),
            (Cell::String(x), Cell::String(y)) => cmp_bytes(bytes_of(x@), bytes_of(y@)),
            (Cell::Word(x), Cell::Word(y)) => cmp_bytes(bytes_of(x@), bytes_of(y@)),
            (Cell::Block(x), Cell::Block(y)) => if x.pos != y.pos {
                cmp_int(x.pos as int, y.pos as int)
            } else {
                cmp_int(x.len as int, y.len as int)
            },
            (Cell::Struct(x), Cell::Struct(y)) => cmp_bytes(bytes_of(x.name@), bytes_of(y.name@)),
            _ => 0,
        }
    }
}

proof fn lemma_cmp_bytes_skip(a: Seq<u8>, b: Seq<u8>, i: int)
    requires
        0 <= i < a.len(),
        i < b.len(),
        a[i] == b[i],
    ensures
        cmp_bytes(a.skip(i), b.skip(i)) == cmp_bytes(a.skip(i + 1), b.skip(i + 1)),
{
    assert(a.skip(i).drop_first() =~= a.skip(i + 1));
    assert(b.skip(i).drop_first() =~= b.skip(i + 1));
}


/// Three-way comparison of byte strings, as `cmp_bytes` states it.
pub fn compare_bytes(a: &[u8], b: &[u8]) -> (r: i8)
    ensures
        r as int == cmp_bytes(a@, b@),
{
    let mut i: usize = 0;
    assert(a@.skip(0) =~= a@ && b@.skip(0) =~= b@);
    while i < a.len() && i < b.len()
        invariant
            0 <= i <= a@.len(),
            i <= b@.len(),
            cmp_bytes(a@, b@) == cmp_bytes(a@.skip(i as int), b@.skip(i as int)),
        decreases a@.len() - i,
    {
        if a[i] < b[i] {
            return -1;
        } else if a[i] > b[i] {
            return 1;
        }
        proof {
            lemma_cmp_bytes_skip(a@, b@, i as int);
        }
        i = i + 1;
    }
    if i < a.len() {
        1
    } else if i < b.len() {
        -1
    } else {
        0
    }
}

/// Three-way comparison of two texts by their UTF-8 bytes.
pub fn compare_text(a: &String, b: &String) -> (r: i8)
    ensures
        r as int == cmp_bytes(bytes_of(a@), bytes_of(b@)),
{
    compare_bytes(a.as_str().as_bytes(), b.as_str().as_bytes())
}

fn compare_ints(a: i64, b: i64) -> (r: i8)
    ensures
        r as int == cmp_int(a as int, b as int),
{
    if a < b {
        -1
    } else if a > b {
        1
    } else {
        0
    }
}

fn compare_sizes(a: usize, b: usize) -> (r: i8)
    ensures
        r as int == cmp_int(a as int, b as int),
{
    if a < b {
        -1
    } else if a > b {
        1
    } else {
        0
    }
}

fn rank_of(c: &Cell) -> (r: u8)
    ensures
        r as int == rank(*c),
{
    match c {
        Cell::Empty => 0,
        Cell::Integer(_) => 1,
        Cell::Float(_) => 2,
        Cell::Boolean(_) => 3,
        Cell::String(_) => 4,
        Cell::Word(_) => 5,
        Cell::Block(_) => 6,
        Cell::Struct(_) => 7,
    }
}

impl Cell {
    /// Three-way shallow comparison of two cells (-1, 0 or 1); two floats are
    /// left to the host.
    pub fn compare(&self, other: &Cell) -> (r: i8)
        requires
            !(self is Float && other is Float),
        ensures
            r as int == cmp_cells(*self, *other),
    {
        let ra = rank_of(self);
        let rb = rank_of(other);
        if ra != rb {
            return if ra < rb { -1 } else { 1 };
        }
        match (self, other) {
            (Cell::Integer(x), Cell::Integer(y)) => compare_ints(*x, *y),
            (Cell::Boolean(x), Cell::Boolean(y)) => compare_ints(
                if *x { 1 } else { 0 },
                if *y { 1 } else { 0 },
            ),
            (Cell::String(x), Cell::String(y)) => compare_text(x, y),
            (Cell::Word(x), Cell::Word(y)) => compare_text(x, y),
            (Cell::Block(x), Cell::Block(y)) => if x.pos != y.pos {
                compare_sizes(x.pos, y.pos)
            } else {
                compare_sizes(x.len, y.len)
            },
            (Cell::Struct(x), Cell::Struct(y)) => compare_text(&x.name, &y.name),
            _ => 0,
        }
    }
}

} // verus!
