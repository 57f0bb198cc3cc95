//! The source grammar the model engine compiles.
//!
//! A module source is a sequence of items:
//!
//! ```text
//! item ::= "import" "{" ident "}" "from" string ";"
//!        | "export" "var" ident "=" expr ";"
//!        | "export" "function" ident "(" ")" block
//!        | "export" "class" ident block
//!        | "globalThis" "." ident "=" expr ";"
//! expr ::= integer | string | ident
//! block ::= "{" balanced "}"
//! ```
//!
//! Function and class bodies are kept opaque: a block is skipped by brace
//! balancing (string literals inside a block take part in the count).
//! Compilation is total and deterministic: `spec_parse` is the exact model
//! of what the executable parser accepts and produces.
use vstd::prelude::*;

verus! {

pub const B_SPACE: u8 = 32;
pub const B_TAB: u8 = 9;
pub const B_LF: u8 = 10;
pub const B_CR: u8 = 13;
pub const B_QUOTE: u8 = 34;
pub const B_DOLLAR: u8 = 36;
pub const B_LPAREN: u8 = 40;
pub const B_RPAREN: u8 = 41;
pub const B_DOT: u8 = 46;
pub const B_SEMI: u8 = 59;
pub const B_EQ: u8 = 61;
pub const B_UNDERSCORE: u8 = 95;
pub const B_LBRACE: u8 = 123;
pub const B_RBRACE: u8 = 125;

/// An expression of the model grammar, as compiled into a module body.
#[derive(Debug, Clone)]
pub enum Expr {
    /// An integer literal.
    IntLit(i64),
    /// A string literal (the bytes between the quotes).
    StrLit(Vec<u8>),
    /// A reference to an import binding.
    Ident(Vec<u8>),
    /// A function expression; its body is opaque to the model.
    FunLit,
    /// A class expression; its body is opaque to the model.
    ClassLit,
}

/// The mathematical model of an [`Expr`].
pub enum ExprView {
    IntLit(i64),
    StrLit(Seq<u8>),
    Ident(Seq<u8>),
    FunLit,
    ClassLit,
}

impl View for Expr {
    type V = ExprView;

    open spec fn view(&self) -> ExprView {
        match self {
            Expr::IntLit(n) => ExprView::IntLit(*n),
            Expr::StrLit(s) => ExprView::StrLit(s@),
            Expr::Ident(s) => ExprView::Ident(s@),
            Expr::FunLit => ExprView::FunLit,
            Expr::ClassLit => ExprView::ClassLit,
        }
    }
}

/// A statement of a compiled module body, run in textual order during
/// evaluation.
#[derive(Debug, Clone)]
pub enum Stmt {
    /// `globalThis.<name> = <expr>;` — writes a binding of the execution
    /// context's global table.
    GlobalAssign(Vec<u8>, Expr),
    /// Initializes the export slot with the given index (an index into the
    /// module's declared export names, in textual order).
    ExportInit(usize, Expr),
}

/// The mathematical model of a [`Stmt`].
pub enum StmtView {
    GlobalAssign(Seq<u8>, ExprView),
    ExportInit(int, ExprView),
}

impl View for Stmt {
    type V = StmtView;

    open spec fn view(&self) -> StmtView {
        match self {
            Stmt::GlobalAssign(n, e) => StmtView::GlobalAssign(n@, e@),
            Stmt::ExportInit(i, e) => StmtView::ExportInit(*i as int, e@),
        }
    }
}

/// One import clause: `import { local } from "from_module";`.
#[derive(Debug, Clone)]
pub struct Import {
    /// The binding name the importing module uses.
    pub local: Vec<u8>,
    /// The name of the module the binding comes from.
    pub from_module: Vec<u8>,
}

/// The mathematical model of an [`Import`].
pub struct ImportView {
    pub local: Seq<u8>,
    pub from_module: Seq<u8>,
}

impl View for Import {
    type V = ImportView;

    open spec fn view(&self) -> ImportView {
        ImportView { local: self.local@, from_module: self.from_module@ }
    }
}

/// A compiled module source: its import clauses, its declared export
/// names (in textual order, duplicates rejected at compile time), and its
/// body statements.
#[derive(Debug, Clone)]
pub struct Program {
    pub imports: Vec<Import>,
    pub declared: Vec<Vec<u8>>,
    pub body: Vec<Stmt>,
}

/// The mathematical model of a [`Program`].
pub struct ProgramView {
    pub imports: Seq<ImportView>,
    pub declared: Seq<Seq<u8>>,
    pub body: Seq<StmtView>,
}

impl View for Program {
    type V = ProgramView;

    open spec fn view(&self) -> ProgramView {
        ProgramView {
            imports: self.imports@.map_values(|i: Import| i@),
            declared: self.declared@.map_values(|n: Vec<u8>| n@),
            body: self.body@.map_values(|s: Stmt| s@),
        }
    }
}

/// The views of a sequence of byte vectors.
pub open spec fn views_of_bytes(s: Seq<Vec<u8>>) -> Seq<Seq<u8>> {
    s.map_values(|v: Vec<u8>| v@)
}

// ---------------------------------------------------------------------
// Character classes.
// ---------------------------------------------------------------------

pub open spec fn is_ws(b: u8) -> bool {
    b == B_SPACE || b == B_TAB || b == B_LF || b == B_CR
}

pub open spec fn is_digit(b: u8) -> bool {
    48 <= b <= 57
}

pub open spec fn is_alpha(b: u8) -> bool {
    (65 <= b <= 90) || (97 <= b <= 122)
}

pub open spec fn is_ident_start(b: u8) -> bool {
    is_alpha(b) || b == B_UNDERSCORE || b == B_DOLLAR
}

pub open spec fn is_ident_char(b: u8) -> bool {
    is_ident_start(b) || is_digit(b)
}

// ---------------------------------------------------------------------
// Keywords (byte sequences, written as ASCII codes).
// ---------------------------------------------------------------------

/// The bytes of `import`.
pub open spec fn kw_import() -> Seq<u8> {
    seq![105u8, 109u8, 112u8, 111u8, 114u8, 116u8]
}

/// The bytes of `from`.
pub open spec fn kw_from() -> Seq<u8> {
    seq![102u8, 114u8, 111u8, 109u8]
}

/// The bytes of `export`.
pub open spec fn kw_export() -> Seq<u8> {
    seq![101u8, 120u8, 112u8, 111u8, 114u8, 116u8]
}

/// The bytes of `var`.
pub open spec fn kw_var() -> Seq<u8> {
    seq![118u8, 97u8, 114u8]
}

/// The bytes of `function`.
pub open spec fn kw_function() -> Seq<u8> {
    seq![102u8, 117u8, 110u8, 99u8, 116u8, 105u8, 111u8, 110u8]
}

/// The bytes of `class`.
pub open spec fn kw_class() -> Seq<u8> {
    seq![99u8, 108u8, 97u8, 115u8, 115u8]
}

/// The bytes of `globalThis`.
pub open spec fn kw_global() -> Seq<u8> {
    seq![103u8, 108u8, 111u8, 98u8, 97u8, 108u8, 84u8, 104u8, 105u8, 115u8]
}

// ---------------------------------------------------------------------
// Scanners.
// ---------------------------------------------------------------------

/// The first index at or after `i` holding a byte that is not whitespace
/// (or the end of the input).
pub open spec fn spec_skip_ws(s: Seq<u8>, i: int) -> int
    decreases s.len() - i,
{
    if 0 <= i < s.len() && is_ws(s[i]) {
        spec_skip_ws(s, i + 1)
    } else {
        i
    }
}

/// The first index at or after `i` holding a byte that cannot continue an
/// identifier (or the end of the input).
pub open spec fn spec_ident_end(s: Seq<u8>, i: int) -> int
    decreases s.len() - i,
{
    if 0 <= i < s.len() && is_ident_char(s[i]) {
        spec_ident_end(s, i + 1)
    } else {
        i
    }
}

/// The first index at or after `i` holding a closing quote (or the end of
/// the input, when the literal is unterminated).
pub open spec fn spec_str_end(s: Seq<u8>, i: int) -> int
    decreases s.len() - i,
{
    if 0 <= i < s.len() && s[i] != B_QUOTE {
        spec_str_end(s, i + 1)
    } else {
        i
    }
}

/// The first index at or after `i` holding a byte that is not a decimal
/// digit (or the end of the input).
pub open spec fn spec_digits_end(s: Seq<u8>, i: int) -> int
    decreases s.len() - i,
{
    if 0 <= i < s.len() && is_digit(s[i]) {
        spec_digits_end(s, i + 1)
    } else {
        i
    }
}

/// The value of the decimal digit run `s[i..j]`.
pub open spec fn spec_digits_val(s: Seq<u8>, i: int, j: int) -> int
    decreases j - i,
{
    if i < j {
        spec_digits_val(s, i, j - 1) * 10 + (s[j - 1] - 48)
    } else {
        0
    }
}

/// The index just past the brace that closes a block, scanning from `i`
/// with `depth` braces currently open; `-1` when the input ends first.
pub open spec fn spec_block_end(s: Seq<u8>, i: int, depth: int) -> int
    decreases s.len() - i,
{
    if !(0 <= i < s.len()) {
        -1
    } else if s[i] == B_LBRACE {
        spec_block_end(s, i + 1, depth + 1)
    } else if s[i] == B_RBRACE {
        if depth <= 1 {
            i + 1
        } else {
            spec_block_end(s, i + 1, depth - 1)
        }
    } else {
        spec_block_end(s, i + 1, depth)
    }
}

/// The bytes `pat` occur in `s` starting exactly at `i`.
pub open spec fn spec_match_at(s: Seq<u8>, i: int, pat: Seq<u8>) -> bool {
    0 <= i && i + pat.len() <= s.len() && s.subrange(i, i + pat.len()) == pat
}

// ---------------------------------------------------------------------
// Scanner bounds.
// ---------------------------------------------------------------------

pub proof fn lemma_skip_ws_bounds(s: Seq<u8>, i: int)
    requires
        0 <= i <= s.len(),
    ensures
        i <= spec_skip_ws(s, i) <= s.len(),
    decreases s.len() - i,
{
    if i < s.len() && is_ws(s[i]) {
        lemma_skip_ws_bounds(s, i + 1);
    }
}

pub proof fn lemma_ident_end_bounds(s: Seq<u8>, i: int)
    requires
        0 <= i <= s.len(),
    ensures
        i <= spec_ident_end(s, i) <= s.len(),
    decreases s.len() - i,
{
    if i < s.len() && is_ident_char(s[i]) {
        lemma_ident_end_bounds(s, i + 1);
    }
}

pub proof fn lemma_str_end_bounds(s: Seq<u8>, i: int)
    requires
        0 <= i <= s.len(),
    ensures
        i <= spec_str_end(s, i) <= s.len(),
    decreases s.len() - i,
{
    if i < s.len() && s[i] != B_QUOTE {
        lemma_str_end_bounds(s, i + 1);
    }
}

pub proof fn lemma_digits_end_bounds(s: Seq<u8>, i: int)
    requires
        0 <= i <= s.len(),
    ensures
        i <= spec_digits_end(s, i) <= s.len(),
    decreases s.len() - i,
{
    if i < s.len() && is_digit(s[i]) {
        lemma_digits_end_bounds(s, i + 1);
    }
}

pub proof fn lemma_block_end_bounds(s: Seq<u8>, i: int, depth: int)
    requires
        0 <= i <= s.len(),
    ensures
        spec_block_end(s, i, depth) == -1 || i < spec_block_end(s, i, depth) <= s.len(),
    decreases s.len() - i,
{
    if i < s.len() {
        if s[i] == B_LBRACE {
            lemma_block_end_bounds(s, i + 1, depth + 1);
        } else if s[i] == B_RBRACE {
            if depth > 1 {
                lemma_block_end_bounds(s, i + 1, depth - 1);
            }
        } else {
            lemma_block_end_bounds(s, i + 1, depth);
        }
    }
}

/// Ten to the `k`-th power.
pub open spec fn pow10(k: nat) -> int
    decreases k,
{
    if k == 0 {
        1
    } else {
        10 * pow10((k - 1) as nat)
    }
}

pub proof fn lemma_digits_val_bound(s: Seq<u8>, i: int, j: int)
    requires
        0 <= i <= j <= s.len(),
        forall|k: int| i <= k < j ==> #[trigger] is_digit(s[k]),
    ensures
        0 <= spec_digits_val(s, i, j) < pow10((j - i) as nat),
    decreases j - i,
{
    if i < j {
        lemma_digits_val_bound(s, i, j - 1);
        assert(is_digit(s[j - 1]));
        assert(pow10((j - i) as nat) == 10 * pow10((j - i - 1) as nat));
    }
}

/// A block scan that still has more braces open than bytes left cannot
/// close them.
pub proof fn lemma_block_end_deep(s: Seq<u8>, i: int, depth: int)
    requires
        0 <= i <= s.len(),
        depth > s.len() - i,
    ensures
        spec_block_end(s, i, depth) == -1,
    decreases s.len() - i,
{
    if i < s.len() {
        if s[i] == B_LBRACE {
            lemma_block_end_deep(s, i + 1, depth + 1);
        } else if s[i] == B_RBRACE {
            lemma_block_end_deep(s, i + 1, depth - 1);
        } else {
            lemma_block_end_deep(s, i + 1, depth);
        }
    }
}

// ---------------------------------------------------------------------
// Executable scanners, each exact against its model.
// ---------------------------------------------------------------------

pub fn skip_ws(s: &[u8], i: usize) -> (r: usize)
    requires
        i <= s@.len(),
    ensures
        r as int == spec_skip_ws(s@, i as int),
        i <= r <= s@.len(),
{
    let mut j: usize = i;
    while j < s.len() && (s[j] == B_SPACE || s[j] == B_TAB || s[j] == B_LF || s[j] == B_CR)
        invariant
            i <= j <= s@.len(),
            spec_skip_ws(s@, i as int) == spec_skip_ws(s@, j as int),
        decreases s@.len() - j,
    {
        j += 1;
    }
    j
}

pub fn ident_end(s: &[u8], i: usize) -> (r: usize)
    requires
        i <= s@.len(),
    ensures
        r as int == spec_ident_end(s@, i as int),
        i <= r <= s@.len(),
{
    let mut j: usize = i;
    while j < s.len() && ((65 <= s[j] && s[j] <= 90) || (97 <= s[j] && s[j] <= 122)
        || s[j] == B_UNDERSCORE || s[j] == B_DOLLAR || (48 <= s[j] && s[j] <= 57))
        invariant
            i <= j <= s@.len(),
            spec_ident_end(s@, i as int) == spec_ident_end(s@, j as int),
        decreases s@.len() - j,
    {
        j += 1;
    }
    j
}

pub fn str_end(s: &[u8], i: usize) -> (r: usize)
    requires
        i <= s@.len(),
    ensures
        r as int == spec_str_end(s@, i as int),
        i <= r <= s@.len(),
{
    let mut j: usize = i;
    while j < s.len() && s[j] != B_QUOTE
        invariant
            i <= j <= s@.len(),
            spec_str_end(s@, i as int) == spec_str_end(s@, j as int),
        decreases s@.len() - j,
    {
        j += 1;
    }
    j
}

pub fn digits_end(s: &[u8], i: usize) -> (r: usize)
    requires
        i <= s@.len(),
    ensures
        r as int == spec_digits_end(s@, i as int),
        i <= r <= s@.len(),
{
    let mut j: usize = i;
    while j < s.len() && 48 <= s[j] && s[j] <= 57
        invariant
            i <= j <= s@.len(),
            spec_digits_end(s@, i as int) == spec_digits_end(s@, j as int),
        decreases s@.len() - j,
    {
        j += 1;
    }
    j
}

pub fn block_end(s: &[u8], i: usize) -> (r: Option<usize>)
    requires
        i <= s@.len(),
    ensures
        spec_block_end(s@, i as int, 1) == -1 ==> r is None,
        spec_block_end(s@, i as int, 1) >= 0 ==> (r matches Some(e) && e as int
            == spec_block_end(s@, i as int, 1) && i < e <= s@.len()),
        spec_block_end(s@, i as int, 1) == -1 || spec_block_end(s@, i as int, 1) > i,
{
    let mut j: usize = i;
    let mut depth: usize = 1;
    proof {
        lemma_block_end_bounds(s@, i as int, 1);
    }
    loop
        invariant
            i <= j <= s@.len(),
            1 <= depth <= j + 1,
            spec_block_end(s@, i as int, 1) == spec_block_end(s@, j as int, depth as int),
            spec_block_end(s@, i as int, 1) == -1 || i < spec_block_end(s@, i as int, 1)
                <= s@.len(),
        decreases s@.len() - j,
    {
        if j >= s.len() {
            return None;
        }
        let b = s[j];
        if b == B_LBRACE {
            if depth >= s.len() - j - 1 {
                proof {
                    lemma_block_end_deep(s@, j + 1, depth + 1);
                }
                return None;
            }
            depth += 1;
        } else if b == B_RBRACE {
            if depth == 1 {
                return Some(j + 1);
            }
            depth -= 1;
        }
        j += 1;
    }
}

/// Compare two byte slices for equality of contents.
pub fn bytes_eq(a: &[u8], b: &[u8]) -> (r: bool)
    ensures
        r == (a@ == b@),
{
    if a.len() != b.len() {
        assert(a@ != b@) by {
            assert(a@.len() != b@.len());
        }
        return false;
    }
    let mut i: usize = 0;
    while i < a.len()
        invariant
            0 <= i <= a@.len(),
            a@.len() == b@.len(),
            forall|j: int| 0 <= j < i ==> a@[j] == b@[j],
        decreases a@.len() - i,
    {
        if a[i] != b[i] {
            return false;
        }
        i += 1;
    }
    proof {
        assert(a@ =~= b@);
    }
    true
}

/// Whether the bytes `pat` occur in `s` starting exactly at `i`.
pub fn match_at(s: &[u8], i: usize, pat: &[u8]) -> (r: bool)
    ensures
        r == spec_match_at(s@, i as int, pat@),
{
    let n: usize = s.len();
    if i > n || n - i < pat.len() {
        return false;
    }
    let mut k: usize = 0;
    while k < pat.len()
        invariant
            0 <= k <= pat@.len(),
            i + pat@.len() <= s@.len(),
            s@.len() == n,
            forall|j: int| 0 <= j < k ==> s@[i + j] == pat@[j],
        decreases pat@.len() - k,
    {
        assert(i + k < n);
        if s[i + k] != pat[k] {
            assert(s@.subrange(i as int, i + pat@.len())[k as int] != pat@[k as int]);
            return false;
        }
        k += 1;
    }
    proof {
        assert(s@.subrange(i as int, i + pat@.len()) =~= pat@);
    }
    true
}

/// Copy the bytes `s[i..j]` into a fresh vector.
pub fn copy_range(s: &[u8], i: usize, j: usize) -> (r: Vec<u8>)
    requires
        i <= j <= s@.len(),
    ensures
        r@ == s@.subrange(i as int, j as int),
{
    let mut v: Vec<u8> = Vec::new();
    let mut k: usize = i;
    while k < j
        invariant
            i <= k <= j <= s@.len(),
            v@ == s@.subrange(i as int, k as int),
        decreases j - k,
    {
        v.push(s[k]);
        proof {
            assert(v@ =~= s@.subrange(i as int, k + 1));
        }
        k += 1;
    }
    v
}

// ---------------------------------------------------------------------
// Facts about the scanners needed by the parser.
// ---------------------------------------------------------------------

pub proof fn lemma_digits_end_chars(s: Seq<u8>, i: int)
    requires
        0 <= i <= s.len(),
    ensures
        forall|k: int| i <= k < spec_digits_end(s, i) ==> #[trigger] is_digit(s[k]),
    decreases s.len() - i,
{
    if i < s.len() && is_digit(s[i]) {
        lemma_digits_end_chars(s, i + 1);
    }
}

pub proof fn lemma_pow10_pos(k: nat)
    ensures
        pow10(k) >= 1,
    decreases k,
{
    if k > 0 {
        lemma_pow10_pos((k - 1) as nat);
    }
}

pub proof fn lemma_pow10_mono(a: nat, b: nat)
    requires
        a <= b,
    ensures
        pow10(a) <= pow10(b),
    decreases b,
{
    if a < b {
        lemma_pow10_mono(a, (b - 1) as nat);
        lemma_pow10_pos((b - 1) as nat);
    }
}

pub proof fn lemma_pow10_17()
    ensures
        pow10(17) == 100000000000000000,
        pow10(18) == 1000000000000000000,
{
    assert(pow10(0) == 1);
    assert(pow10(1) == 10);
    assert(pow10(2) == 100);
    assert(pow10(3) == 1000);
    assert(pow10(4) == 10000);
    assert(pow10(5) == 100000);
    assert(pow10(6) == 1000000);
    assert(pow10(7) == 10000000);
    assert(pow10(8) == 100000000);
    assert(pow10(9) == 1000000000);
    assert(pow10(10) == 10000000000);
    assert(pow10(11) == 100000000000);
    assert(pow10(12) == 1000000000000);
    assert(pow10(13) == 10000000000000);
    assert(pow10(14) == 100000000000000);
    assert(pow10(15) == 1000000000000000);
    assert(pow10(16) == 10000000000000000);
    assert(pow10(17) == 100000000000000000);
    assert(pow10(18) == 1000000000000000000);
}

// ---------------------------------------------------------------------
// The parser's model.
// ---------------------------------------------------------------------

/// One parsed item of a module source.
#[derive(Debug)]
pub enum Item {
    /// An import clause.
    Imp(Import),
    /// An export declaration: name and initializing expression.
    Exp(Vec<u8>, Expr),
    /// A global assignment: name and assigned expression.
    Glob(Vec<u8>, Expr),
}

/// The mathematical model of an [`Item`].
pub enum ItemView {
    Imp(ImportView),
    Exp(Seq<u8>, ExprView),
    Glob(Seq<u8>, ExprView),
}

impl View for Item {
    type V = ItemView;

    open spec fn view(&self) -> ItemView {
        match self {
            Item::Imp(im) => ItemView::Imp(im@),
            Item::Exp(n, e) => ItemView::Exp(n@, e@),
            Item::Glob(n, e) => ItemView::Glob(n@, e@),
        }
    }
}

/// An expression parsed at index `i` (no leading whitespace), with the
/// index just past it.
pub open spec fn spec_parse_expr(s: Seq<u8>, i: int) -> Option<(ExprView, int)> {
    if 0 <= i < s.len() && is_digit(s[i]) {
        let e = spec_digits_end(s, i);
        if e - i > 18 {
            None
        } else {
            Some((ExprView::IntLit(spec_digits_val(s, i, e) as i64), e))
        }
    } else if 0 <= i < s.len() && s[i] == B_QUOTE {
        let e = spec_str_end(s, i + 1);
        if e < s.len() {
            Some((ExprView::StrLit(s.subrange(i + 1, e)), e + 1))
        } else {
            None
        }
    } else if 0 <= i < s.len() && is_ident_start(s[i]) {
        let e = spec_ident_end(s, i);
        Some((ExprView::Ident(s.subrange(i, e)), e))
    } else {
        None
    }
}

/// An import clause parsed at index `j` (which holds the `import`
/// keyword), with the index just past its terminating semicolon.
pub open spec fn spec_parse_import(s: Seq<u8>, j: int) -> Option<(ItemView, int)> {
    let j1 = spec_skip_ws(s, j + 6);
    if j1 < s.len() && s[j1] == B_LBRACE {
        let j2 = spec_skip_ws(s, j1 + 1);
        if j2 < s.len() && is_ident_start(s[j2]) {
            let e = spec_ident_end(s, j2);
            let name = s.subrange(j2, e);
            let j3 = spec_skip_ws(s, e);
            if j3 < s.len() && s[j3] == B_RBRACE {
                let j4 = spec_skip_ws(s, j3 + 1);
                if spec_match_at(s, j4, kw_from()) {
                    let j5 = spec_skip_ws(s, j4 + 4);
                    if j5 < s.len() && s[j5] == B_QUOTE {
                        let e2 = spec_str_end(s, j5 + 1);
                        if e2 < s.len() {
                            let modname = s.subrange(j5 + 1, e2);
                            let j6 = spec_skip_ws(s, e2 + 1);
                            if j6 < s.len() && s[j6] == B_SEMI {
                                Some(
                                    (
                                        ItemView::Imp(
                                            ImportView { local: name, from_module: modname },
                                        ),
                                        j6 + 1,
                                    ),
                                )
                            } else {
                                None
                            }
                        } else {
                            None
                        }
                    } else {
                        None
                    }
                } else {
                    None
                }
            } else {
                None
            }
        } else {
            None
        }
    } else {
        None
    }
}

/// An export declaration parsed at index `j` (which holds the `export`
/// keyword), with the index just past it.
pub open spec fn spec_parse_export(s: Seq<u8>, j: int) -> Option<(ItemView, int)> {
    let j1 = spec_skip_ws(s, j + 6);
    if spec_match_at(s, j1, kw_var()) {
        let j2 = spec_skip_ws(s, j1 + 3);
        if j2 < s.len() && is_ident_start(s[j2]) {
            let e = spec_ident_end(s, j2);
            let name = s.subrange(j2, e);
            let j3 = spec_skip_ws(s, e);
            if j3 < s.len() && s[j3] == B_EQ {
                let j4 = spec_skip_ws(s, j3 + 1);
                match spec_parse_expr(s, j4) {
                    Some((v, j5)) => {
                        let j6 = spec_skip_ws(s, j5);
                        if j6 < s.len() && s[j6] == B_SEMI {
                            Some((ItemView::Exp(name, v), j6 + 1))
                        } else {
                            None
                        }
                    },
                    None => None,
                }
            } else {
                None
            }
        } else {
            None
        }
    } else if spec_match_at(s, j1, kw_function()) {
        let j2 = spec_skip_ws(s, j1 + 8);
        if j2 < s.len() && is_ident_start(s[j2]) {
            let e = spec_ident_end(s, j2);
            let name = s.subrange(j2, e);
            let j3 = spec_skip_ws(s, e);
            if j3 < s.len() && s[j3] == B_LPAREN {
                let j4 = spec_skip_ws(s, j3 + 1);
                if j4 < s.len() && s[j4] == B_RPAREN {
                    let j5 = spec_skip_ws(s, j4 + 1);
                    if j5 < s.len() && s[j5] == B_LBRACE {
                        let be = spec_block_end(s, j5 + 1, 1);
                        if be >= 0 {
                            Some((ItemView::Exp(name, ExprView::FunLit), be))
                        } else {
                            None
                        }
                    } else {
                        None
                    }
                } else {
                    None
                }
            } else {
                None
            }
        } else {
            None
        }
    } else if spec_match_at(s, j1, kw_class()) {
        let j2 = spec_skip_ws(s, j1 + 5);
        if j2 < s.len() && is_ident_start(s[j2]) {
            let e = spec_ident_end(s, j2);
            let name = s.subrange(j2, e);
            let j3 = spec_skip_ws(s, e);
            if j3 < s.len() && s[j3] == B_LBRACE {
                let be = spec_block_end(s, j3 + 1, 1);
                if be >= 0 {
                    Some((ItemView::Exp(name, ExprView::ClassLit), be))
                } else {
                    None
                }
            } else {
                None
            }
        } else {
            None
        }
    } else {
        None
    }
}

/// A global assignment parsed at index `j` (which holds the `globalThis`
/// keyword), with the index just past its terminating semicolon.
pub open spec fn spec_parse_global(s: Seq<u8>, j: int) -> Option<(ItemView, int)> {
    let j1 = spec_skip_ws(s, j + 10);
    if j1 < s.len() && s[j1] == B_DOT {
        let j2 = spec_skip_ws(s, j1 + 1);
        if j2 < s.len() && is_ident_start(s[j2]) {
            let e = spec_ident_end(s, j2);
            let name = s.subrange(j2, e);
            let j3 = spec_skip_ws(s, e);
            if j3 < s.len() && s[j3] == B_EQ {
                let j4 = spec_skip_ws(s, j3 + 1);
                match spec_parse_expr(s, j4) {
                    Some((v, j5)) => {
                        let j6 = spec_skip_ws(s, j5);
                        if j6 < s.len() && s[j6] == B_SEMI {
                            Some((ItemView::Glob(name, v), j6 + 1))
                        } else {
                            None
                        }
                    },
                    None => None,
                }
            } else {
                None
            }
        } else {
            None
        }
    } else {
        None
    }
}

/// One item parsed at index `j` (no leading whitespace), with the index
/// just past it.
pub open spec fn spec_parse_item(s: Seq<u8>, j: int) -> Option<(ItemView, int)> {
    if spec_match_at(s, j, kw_import()) {
        spec_parse_import(s, j)
    } else if spec_match_at(s, j, kw_export()) {
        spec_parse_export(s, j)
    } else if spec_match_at(s, j, kw_global()) {
        spec_parse_global(s, j)
    } else {
        None
    }
}

/// The items of `s` from index `i` on, given the export names `decl`
/// already declared by earlier items: the imports, the newly declared
/// export names (textual order, duplicates rejected), and the body
/// statements, whose export-slot indices continue `decl`.
pub open spec fn spec_parse_items(s: Seq<u8>, i: int, decl: Seq<Seq<u8>>) -> Option<
    (Seq<ImportView>, Seq<Seq<u8>>, Seq<StmtView>),
>
    decreases s.len() - i,
{
    let j = spec_skip_ws(s, i);
    if j >= s.len() {
        Some((Seq::empty(), Seq::empty(), Seq::empty()))
    } else {
        match spec_parse_item(s, j) {
            None => None,
            Some((it, k)) => if k <= i || k > s.len() {
                None
            } else {
                match it {
                    ItemView::Imp(im) => match spec_parse_items(s, k, decl) {
                        None => None,
                        Some(t) => Some((seq![im] + t.0, t.1, t.2)),
                    },
                    ItemView::Exp(name, ex) => if decl.contains(name) {
                        None
                    } else {
                        match spec_parse_items(s, k, decl.push(name)) {
                            None => None,
                            Some(t) => Some(
                                (
                                    t.0,
                                    seq![name] + t.1,
                                    seq![StmtView::ExportInit(decl.len() as int, ex)] + t.2,
                                ),
                            ),
                        }
                    },
                    ItemView::Glob(name, ex) => match spec_parse_items(s, k, decl) {
                        None => None,
                        Some(t) => Some((t.0, t.1, seq![StmtView::GlobalAssign(name, ex)] + t.2)),
                    },
                }
            },
        }
    }
}

/// An export-initializing statement addresses a slot in `[lo, hi)`.
pub open spec fn slot_in(st: StmtView, lo: int, hi: int) -> bool {
    match st {
        StmtView::ExportInit(i, _) => lo <= i < hi,
        StmtView::GlobalAssign(_, _) => true,
    }
}

/// The export slots a parsed suffix addresses all belong to the names it
/// itself declares, counted on from the accumulator.
pub proof fn lemma_parse_items_slots(s: Seq<u8>, i: int, decl: Seq<Seq<u8>>)
    ensures
        match spec_parse_items(s, i, decl) {
            Some(t) => forall|k: int|
                0 <= k < t.2.len() ==> slot_in(
                    #[trigger] t.2[k],
                    decl.len() as int,
                    decl.len() + t.1.len() as int,
                ),
            None => true,
        },
    decreases s.len() - i,
{
    let j = spec_skip_ws(s, i);
    if j >= s.len() {
    } else {
        match spec_parse_item(s, j) {
            None => {},
            Some((it, k)) => {
                if k <= i || k > s.len() {
                } else {
                    match it {
                        ItemView::Imp(_) => {
                            lemma_parse_items_slots(s, k, decl);
                        },
                        ItemView::Exp(name, ex) => {
                            if !decl.contains(name) {
                                lemma_parse_items_slots(s, k, decl.push(name));
                                match spec_parse_items(s, k, decl.push(name)) {
                                    Some(t) => {
                                        let whole = seq![
                                            StmtView::ExportInit(decl.len() as int, ex),
                                        ] + t.2;
                                        assert forall|q: int| 0 <= q < whole.len() implies slot_in(
                                            #[trigger] whole[q],
                                            decl.len() as int,
                                            decl.len() + 1 + t.1.len() as int,
                                        ) by {
                                            if q > 0 {
                                                assert(whole[q] == t.2[q - 1]);
                                            }
                                        }
                                    },
                                    None => {},
                                }
                            }
                        },
                        ItemView::Glob(name, ex) => {
                            lemma_parse_items_slots(s, k, decl);
                            match spec_parse_items(s, k, decl) {
                                Some(t) => {
                                    let whole = seq![StmtView::GlobalAssign(name, ex)] + t.2;
                                    assert forall|q: int| 0 <= q < whole.len() implies slot_in(
                                        #[trigger] whole[q],
                                        decl.len() as int,
                                        decl.len() + t.1.len() as int,
                                    ) by {
                                        if q > 0 {
                                            assert(whole[q] == t.2[q - 1]);
                                        }
                                    }
                                },
                                None => {},
                            }
                        },
                    }
                }
            },
        }
    }
}

/// The export slots of a parsed program all address its declared names.
pub proof fn lemma_parse_slots(s: Seq<u8>)
    ensures
        match spec_parse(s) {
            Some(p) => forall|k: int|
                0 <= k < p.body.len() ==> slot_in(#[trigger] p.body[k], 0, p.declared.len() as int),
            None => true,
        },
{
    lemma_parse_items_slots(s, 0, Seq::empty());
}

/// What compiling the source `s` yields: the compiled program, or nothing
/// when `s` does not match the grammar.
pub open spec fn spec_parse(s: Seq<u8>) -> Option<ProgramView> {
    match spec_parse_items(s, 0, Seq::empty()) {
        None => None,
        Some(t) => Some(ProgramView { imports: t.0, declared: t.1, body: t.2 }),
    }
}

// ---------------------------------------------------------------------
// The executable parser, exact against the model.
// ---------------------------------------------------------------------

impl Expr {
    /// Copy an expression.
    pub fn duplicate(&self) -> (r: Expr)
        ensures
            r@ == self@,
    {
        match self {
            Expr::IntLit(n) => Expr::IntLit(*n),
            Expr::StrLit(s) => {
                let c = copy_range(s.as_slice(), 0, s.len());
                proof {
                    assert(c@ =~= s@);
                }
                Expr::StrLit(c)
            },
            Expr::Ident(s) => {
                let c = copy_range(s.as_slice(), 0, s.len());
                proof {
                    assert(c@ =~= s@);
                }
                Expr::Ident(c)
            },
            Expr::FunLit => Expr::FunLit,
            Expr::ClassLit => Expr::ClassLit,
        }
    }
}

impl Stmt {
    /// Copy a statement.
    pub fn duplicate(&self) -> (r: Stmt)
        ensures
            r@ == self@,
    {
        match self {
            Stmt::GlobalAssign(n, e) => {
                let c = copy_range(n.as_slice(), 0, n.len());
                proof {
                    assert(c@ =~= n@);
                }
                Stmt::GlobalAssign(c, e.duplicate())
            },
            Stmt::ExportInit(i, e) => Stmt::ExportInit(*i, e.duplicate()),
        }
    }
}

/// Copy a whole byte vector.
pub fn copy_bytes(s: &Vec<u8>) -> (r: Vec<u8>)
    ensures
        r@ == s@,
{
    let c = copy_range(s.as_slice(), 0, s.len());
    proof {
        assert(c@ =~= s@);
    }
    c
}

/// The model of an optional parsed expression with its end index.
pub open spec fn opt_expr_view(r: Option<(Expr, usize)>) -> Option<(ExprView, int)> {
    match r {
        Some((e, j)) => Some((e@, j as int)),
        None => None,
    }
}

/// The model of an optional parsed item with its end index.
pub open spec fn opt_item_view(r: Option<(Item, usize)>) -> Option<(ItemView, int)> {
    match r {
        Some((it, j)) => Some((it@, j as int)),
        None => None,
    }
}

/// Parse one expression at `i` (no leading whitespace).
pub fn parse_expr(s: &[u8], i: usize) -> (r: Option<(Expr, usize)>)
    requires
        i <= s@.len(),
    ensures
        opt_expr_view(r) == spec_parse_expr(s@, i as int),
        r matches Some(p) ==> i < p.1 <= s@.len(),
{
    if i < s.len() && 48 <= s[i] && s[i] <= 57 {
        let e = digits_end(s, i);
        proof {
            assert(is_digit(s@[i as int]));
            lemma_digits_end_bounds(s@, i as int + 1);
            assert(e > i);
        }
        if e - i > 18 {
            return None;
        }
        proof {
            lemma_digits_end_chars(s@, i as int);
            lemma_pow10_17();
        }
        let mut k: usize = i;
        let mut v: u64 = 0;
        while k < e
            invariant
                i <= k <= e <= s@.len(),
                e - i <= 18,
                e as int == spec_digits_end(s@, i as int),
                forall|q: int| i <= q < e ==> #[trigger] is_digit(s@[q]),
                v as int == spec_digits_val(s@, i as int, k as int),
                pow10(17) == 100000000000000000,
                pow10(18) == 1000000000000000000,
            decreases e - k,
        {
            proof {
                lemma_digits_val_bound(s@, i as int, k as int);
                lemma_pow10_mono((k - i) as nat, 17);
                assert(is_digit(s@[k as int]));
            }
            v = v * 10 + ((s[k] - 48) as u64);
            k += 1;
        }
        proof {
            lemma_digits_val_bound(s@, i as int, e as int);
            lemma_pow10_mono((e - i) as nat, 18);
        }
        Some((Expr::IntLit(v as i64), e))
    } else if i < s.len() && s[i] == B_QUOTE {
        let e = str_end(s, i + 1);
        if e < s.len() {
            Some((Expr::StrLit(copy_range(s, i + 1, e)), e + 1))
        } else {
            None
        }
    } else if i < s.len() && ((65 <= s[i] && s[i] <= 90) || (97 <= s[i] && s[i] <= 122)
        || s[i] == B_UNDERSCORE || s[i] == B_DOLLAR) {
        let e = ident_end(s, i);
        proof {
            assert(is_ident_char(s@[i as int]));
            lemma_ident_end_bounds(s@, i as int + 1);
            assert(e > i);
        }
        Some((Expr::Ident(copy_range(s, i, e)), e))
    } else {
        None
    }
}

/// Build the keyword bytes of `from`.
fn kw_from_vec() -> (r: Vec<u8>)
    ensures
        r@ == kw_from(),
{
    let mut v: Vec<u8> = Vec::new();
    v.push(102);
    v.push(114);
    v.push(111);
    v.push(109);
    proof {
        assert(v@ =~= kw_from());
    }
    v
}

/// Build the keyword bytes of `import`.
fn kw_import_vec() -> (r: Vec<u8>)
    ensures
        r@ == kw_import(),
{
    let mut v: Vec<u8> = Vec::new();
    v.push(105);
    v.push(109);
    v.push(112);
    v.push(111);
    v.push(114);
    v.push(116);
    proof {
        assert(v@ =~= kw_import());
    }
    v
}

/// Build the keyword bytes of `export`.
fn kw_export_vec() -> (r: Vec<u8>)
    ensures
        r@ == kw_export(),
{
    let mut v: Vec<u8> = Vec::new();
    v.push(101);
    v.push(120);
    v.push(112);
    v.push(111);
    v.push(114);
    v.push(116);
    proof {
        assert(v@ =~= kw_export());
    }
    v
}

/// Build the keyword bytes of `var`.
fn kw_var_vec() -> (r: Vec<u8>)
    ensures
        r@ == kw_var(),
{
    let mut v: Vec<u8> = Vec::new();
    v.push(118);
    v.push(97);
    v.push(114);
    proof {
        assert(v@ =~= kw_var());
    }
    v
}

/// Build the keyword bytes of `function`.
fn kw_function_vec() -> (r: Vec<u8>)
    ensures
        r@ == kw_function(),
{
    let mut v: Vec<u8> = Vec::new();
    v.push(102);
    v.push(117);
    v.push(110);
    v.push(99);
    v.push(116);
    v.push(105);
    v.push(111);
    v.push(110);
    proof {
        assert(v@ =~= kw_function());
    }
    v
}

/// Build the keyword bytes of `class`.
fn kw_class_vec() -> (r: Vec<u8>)
    ensures
        r@ == kw_class(),
{
    let mut v: Vec<u8> = Vec::new();
    v.push(99);
    v.push(108);
    v.push(97);
    v.push(115);
    v.push(115);
    proof {
        assert(v@ =~= kw_class());
    }
    v
}

/// Build the keyword bytes of `globalThis`.
fn kw_global_vec() -> (r: Vec<u8>)
    ensures
        r@ == kw_global(),
{
    let mut v: Vec<u8> = Vec::new();
    v.push(103);
    v.push(108);
    v.push(111);
    v.push(98);
    v.push(97);
    v.push(108);
    v.push(84);
    v.push(104);
    v.push(105);
    v.push(115);
    proof {
        assert(v@ =~= kw_global());
    }
    v
}

/// Parse an import clause whose `import` keyword stands at `j`.
fn parse_import(s: &[u8], j: usize) -> (r: Option<(Item, usize)>)
    requires
        spec_match_at(s@, j as int, kw_import()),
    ensures
        opt_item_view(r) == spec_parse_import(s@, j as int),
        r matches Some(p) ==> j < p.1 <= s@.len(),
{
    let n: usize = s.len();
    proof {
        assert(kw_import().len() == 6);
        assert(kw_from().len() == 4);
        assert(j + 6 <= n);
    }
    let j1 = skip_ws(s, j + 6);
    if !(j1 < s.len() && s[j1] == B_LBRACE) {
        return None;
    }
    let j2 = skip_ws(s, j1 + 1);
    if !(j2 < s.len() && ((65 <= s[j2] && s[j2] <= 90) || (97 <= s[j2] && s[j2] <= 122)
        || s[j2] == B_UNDERSCORE || s[j2] == B_DOLLAR)) {
        return None;
    }
    let e = ident_end(s, j2);
    let name = copy_range(s, j2, e);
    let j3 = skip_ws(s, e);
    if !(j3 < s.len() && s[j3] == B_RBRACE) {
        return None;
    }
    let j4 = skip_ws(s, j3 + 1);
    if !match_at(s, j4, kw_from_vec().as_slice()) {
        return None;
    }
    let j5 = skip_ws(s, j4 + 4);
    if !(j5 < s.len() && s[j5] == B_QUOTE) {
        return None;
    }
    let e2 = str_end(s, j5 + 1);
    if !(e2 < s.len()) {
        return None;
    }
    let modname = copy_range(s, j5 + 1, e2);
    let j6 = skip_ws(s, e2 + 1);
    if !(j6 < s.len() && s[j6] == B_SEMI) {
        return None;
    }
    Some((Item::Imp(Import { local: name, from_module: modname }), j6 + 1))
}

/// Parse an export declaration whose `export` keyword stands at `j`.
fn parse_export(s: &[u8], j: usize) -> (r: Option<(Item, usize)>)
    requires
        spec_match_at(s@, j as int, kw_export()),
    ensures
        opt_item_view(r) == spec_parse_export(s@, j as int),
        r matches Some(p) ==> j < p.1 <= s@.len(),
{
    let n: usize = s.len();
    proof {
        assert(kw_export().len() == 6);
        assert(kw_var().len() == 3);
        assert(kw_function().len() == 8);
        assert(kw_class().len() == 5);
        assert(j + 6 <= n);
    }
    let j1 = skip_ws(s, j + 6);
    if match_at(s, j1, kw_var_vec().as_slice()) {
        let j2 = skip_ws(s, j1 + 3);
        if !(j2 < s.len() && ((65 <= s[j2] && s[j2] <= 90) || (97 <= s[j2] && s[j2] <= 122)
            || s[j2] == B_UNDERSCORE || s[j2] == B_DOLLAR)) {
            return None;
        }
        let e = ident_end(s, j2);
        let name = copy_range(s, j2, e);
        let j3 = skip_ws(s, e);
        if !(j3 < s.len() && s[j3] == B_EQ) {
            return None;
        }
        let j4 = skip_ws(s, j3 + 1);
        match parse_expr(s, j4) {
            Some((v, j5)) => {
                let j6 = skip_ws(s, j5);
                if !(j6 < s.len() && s[j6] == B_SEMI) {
                    return None;
                }
                Some((Item::Exp(name, v), j6 + 1))
            },
            None => None,
        }
    } else if match_at(s, j1, kw_function_vec().as_slice()) {
        let j2 = skip_ws(s, j1 + 8);
        if !(j2 < s.len() && ((65 <= s[j2] && s[j2] <= 90) || (97 <= s[j2] && s[j2] <= 122)
            || s[j2] == B_UNDERSCORE || s[j2] == B_DOLLAR)) {
            return None;
        }
        let e = ident_end(s, j2);
        let name = copy_range(s, j2, e);
        let j3 = skip_ws(s, e);
        if !(j3 < s.len() && s[j3] == B_LPAREN) {
            return None;
        }
        let j4 = skip_ws(s, j3 + 1);
        if !(j4 < s.len() && s[j4] == B_RPAREN) {
            return None;
        }
        let j5 = skip_ws(s, j4 + 1);
        if !(j5 < s.len() && s[j5] == B_LBRACE) {
            return None;
        }
        match block_end(s, j5 + 1) {
            Some(be) => Some((Item::Exp(name, Expr::FunLit), be)),
            None => None,
        }
    } else if match_at(s, j1, kw_class_vec().as_slice()) {
        let j2 = skip_ws(s, j1 + 5);
        if !(j2 < s.len() && ((65 <= s[j2] && s[j2] <= 90) || (97 <= s[j2] && s[j2] <= 122)
            || s[j2] == B_UNDERSCORE || s[j2] == B_DOLLAR)) {
            return None;
        }
        let e = ident_end(s, j2);
        let name = copy_range(s, j2, e);
        let j3 = skip_ws(s, e);
        if !(j3 < s.len() && s[j3] == B_LBRACE) {
            return None;
        }
        match block_end(s, j3 + 1) {
            Some(be) => Some((Item::Exp(name, Expr::ClassLit), be)),
            None => None,
        }
    } else {
        None
    }
}

/// Parse a global assignment whose `globalThis` keyword stands at `j`.
fn parse_global(s: &[u8], j: usize) -> (r: Option<(Item, usize)>)
    requires
        spec_match_at(s@, j as int, kw_global()),
    ensures
        opt_item_view(r) == spec_parse_global(s@, j as int),
        r matches Some(p) ==> j < p.1 <= s@.len(),
{
    let n: usize = s.len();
    proof {
        assert(kw_global().len() == 10);
        assert(j + 10 <= n);
    }
    let j1 = skip_ws(s, j + 10);
    if !(j1 < s.len() && s[j1] == B_DOT) {
        return None;
    }
    let j2 = skip_ws(s, j1 + 1);
    if !(j2 < s.len() && ((65 <= s[j2] && s[j2] <= 90) || (97 <= s[j2] && s[j2] <= 122)
        || s[j2] == B_UNDERSCORE || s[j2] == B_DOLLAR)) {
        return None;
    }
    let e = ident_end(s, j2);
    let name = copy_range(s, j2, e);
    let j3 = skip_ws(s, e);
    if !(j3 < s.len() && s[j3] == B_EQ) {
        return None;
    }
    let j4 = skip_ws(s, j3 + 1);
    match parse_expr(s, j4) {
        Some((v, j5)) => {
            let j6 = skip_ws(s, j5);
            if !(j6 < s.len() && s[j6] == B_SEMI) {
                return None;
            }
            Some((Item::Glob(name, v), j6 + 1))
        },
        None => None,
    }
}

/// Parse one item at `j` (no leading whitespace).
fn parse_item(s: &[u8], j: usize) -> (r: Option<(Item, usize)>)
    requires
        j <= s@.len(),
    ensures
        opt_item_view(r) == spec_parse_item(s@, j as int),
        r matches Some(p) ==> j < p.1 <= s@.len(),
{
    if match_at(s, j, kw_import_vec().as_slice()) {
        parse_import(s, j)
    } else if match_at(s, j, kw_export_vec().as_slice()) {
        parse_export(s, j)
    } else if match_at(s, j, kw_global_vec().as_slice()) {
        parse_global(s, j)
    } else {
        None
    }
}

/// Whether `x` occurs among the byte vectors of `d`.
pub fn contains_bytes(d: &Vec<Vec<u8>>, x: &[u8]) -> (r: bool)
    ensures
        r == views_of_bytes(d@).contains(x@),
{
    let mut i: usize = 0;
    while i < d.len()
        invariant
            0 <= i <= d@.len(),
            forall|j: int| 0 <= j < i ==> views_of_bytes(d@)[j] != x@,
        decreases d@.len() - i,
    {
        if bytes_eq(d[i].as_slice(), x) {
            assert(views_of_bytes(d@)[i as int] == x@);
            return true;
        }
        i += 1;
    }
    assert(!views_of_bytes(d@).contains(x@)) by {
        assert(forall|j: int| 0 <= j < d@.len() ==> views_of_bytes(d@)[j] != x@);
    }
    false
}

/// Compile the source `src`: parse it into a program, exactly as
/// [`spec_parse`] says; a source outside the grammar is rejected.
pub fn parse_program(src: &[u8]) -> (r: Result<Program, ()>)
    ensures
        r matches Ok(p) ==> spec_parse(src@) == Some(p@),
        r is Err ==> spec_parse(src@) is None,
{
    let mut imports: Vec<Import> = Vec::new();
    let mut declared: Vec<Vec<u8>> = Vec::new();
    let mut body: Vec<Stmt> = Vec::new();
    let mut i: usize = 0;
    proof {
        assert(views_of_bytes(declared@) =~= Seq::<Seq<u8>>::empty());
        match spec_parse_items(src@, 0, Seq::empty()) {
            Some(t) => {
                assert(imports@.map_values(|im: Import| im@) + t.0 =~= t.0);
                assert(views_of_bytes(declared@) + t.1 =~= t.1);
                assert(body@.map_values(|st: Stmt| st@) + t.2 =~= t.2);
                assert(spec_parse_items(src@, 0, Seq::empty()) == Some(
                    (
                        imports@.map_values(|im: Import| im@) + t.0,
                        views_of_bytes(declared@) + t.1,
                        body@.map_values(|st: Stmt| st@) + t.2,
                    ),
                ));
            },
            None => {},
        }
    }
    loop
        invariant
            i <= src@.len(),
            ({
                let rest = spec_parse_items(src@, i as int, views_of_bytes(declared@));
                let full = spec_parse_items(src@, 0, Seq::empty());
                match rest {
                    Some(t) => full == Some(
                        (
                            imports@.map_values(|im: Import| im@) + t.0,
                            views_of_bytes(declared@) + t.1,
                            body@.map_values(|st: Stmt| st@) + t.2,
                        ),
                    ),
                    None => full is None,
                }
            }),
        ensures
            spec_parse_items(src@, i as int, views_of_bytes(declared@)) == Some(
                (Seq::<ImportView>::empty(), Seq::<Seq<u8>>::empty(), Seq::<StmtView>::empty()),
            ),
            spec_parse_items(src@, 0, Seq::empty()) == Some(
                (
                    imports@.map_values(|im: Import| im@) + Seq::<ImportView>::empty(),
                    views_of_bytes(declared@) + Seq::<Seq<u8>>::empty(),
                    body@.map_values(|st: Stmt| st@) + Seq::<StmtView>::empty(),
                ),
            ),
        decreases src@.len() - i,
    {
        let ghost decl_views = views_of_bytes(declared@);
        let ghost rest0 = spec_parse_items(src@, i as int, decl_views);
        let j = skip_ws(src, i);
        if j >= src.len() {
            proof {
                assert(rest0 == Some(
                    (Seq::<ImportView>::empty(), Seq::<Seq<u8>>::empty(), Seq::<StmtView>::empty()),
                ));
            }
            break;
        }
        let item = parse_item(src, j);
        match item {
            None => {
                return Err(());
            },
            Some((it, k)) => {
                if k <= i {
                    return Err(());
                }
                match it {
                    Item::Imp(im) => {
                        let ghost imv = im@;
                        imports.push(im);
                        proof {
                            assert(imports@.map_values(|q: Import| q@) =~= imports@.drop_last()
                                .map_values(|q: Import| q@).push(imv));
                            match spec_parse_items(src@, k as int, decl_views) {
                                Some(t) => {
                                    assert(imports@.drop_last().map_values(|q: Import| q@) + (seq![
                                        imv,
                                    ] + t.0) =~= imports@.map_values(|q: Import| q@) + t.0);
                                },
                                None => {},
                            }
                        }
                    },
                    Item::Exp(name, ex) => {
                        if contains_bytes(&declared, name.as_slice()) {
                            return Err(());
                        }
                        let ghost namev = name@;
                        let ghost exv = ex@;
                        let slot = declared.len();
                        body.push(Stmt::ExportInit(slot, ex));
                        declared.push(name);
                        proof {
                            assert(views_of_bytes(declared@) =~= decl_views.push(namev));
                            assert(body@.map_values(|st: Stmt| st@) =~= body@.drop_last()
                                .map_values(|st: Stmt| st@).push(
                                StmtView::ExportInit(slot as int, exv),
                            ));
                            match spec_parse_items(src@, k as int, decl_views.push(namev)) {
                                Some(t) => {
                                    assert(decl_views + (seq![namev] + t.1) =~= views_of_bytes(
                                        declared@,
                                    ) + t.1);
                                    assert(body@.drop_last().map_values(|st: Stmt| st@) + (seq![
                                        StmtView::ExportInit(slot as int, exv),
                                    ] + t.2) =~= body@.map_values(|st: Stmt| st@) + t.2);
                                },
                                None => {},
                            }
                        }
                    },
                    Item::Glob(name, ex) => {
                        let ghost namev = name@;
                        let ghost exv = ex@;
                        body.push(Stmt::GlobalAssign(name, ex));
                        proof {
                            assert(body@.map_values(|st: Stmt| st@) =~= body@.drop_last()
                                .map_values(|st: Stmt| st@).push(
                                StmtView::GlobalAssign(namev, exv),
                            ));
                            match spec_parse_items(src@, k as int, decl_views) {
                                Some(t) => {
                                    assert(body@.drop_last().map_values(|st: Stmt| st@) + (seq![
                                        StmtView::GlobalAssign(namev, exv),
                                    ] + t.2) =~= body@.map_values(|st: Stmt| st@) + t.2);
                                },
                                None => {},
                            }
                        }
                    },
                }
                i = k;
            },
        }
    }
    proof {
        assert(imports@.map_values(|im: Import| im@) + Seq::<ImportView>::empty() =~= imports@
            .map_values(|im: Import| im@));
        assert(views_of_bytes(declared@) + Seq::<Seq<u8>>::empty() =~= views_of_bytes(declared@));
        assert(body@.map_values(|st: Stmt| st@) + Seq::<StmtView>::empty() =~= body@.map_values(
            |st: Stmt| st@,
        ));
    }
    let p = Program { imports, declared, body };
    proof {
        assert(p@.imports =~= p.imports@.map_values(|i: Import| i@));
        assert(p@.imports =~= p.imports@.map_values(|im: Import| im@));
        assert(p@.declared =~= views_of_bytes(p.declared@));
        assert(p@.body =~= p.body@.map_values(|st: Stmt| st@));
        match spec_parse(src@) {
            Some(q) => {
                assert(q.imports == p@.imports);
                assert(q.declared == p@.declared);
                assert(q.body == p@.body);
                assert(q == p@);
            },
            None => {},
        }
    }
    Ok(p)
}

} // verus!
