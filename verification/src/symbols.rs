//! Symbol files: function records and call frame information of one module.
//!
//! A symbol file is text. Three kinds of line matter here, every other line
//! is passed over:
//!
//! ```text
//! FUNC <address> <size> <parameter size> <name>
//! STACK CFI INIT <address> <size> <rules>
//! STACK CFI <address> <rules>
//! ```
//!
//! Numbers are hexadecimal and addresses are relative to the module's base.
//! A `STACK CFI` line adds rules, from its address on, to the function that
//! the last `STACK CFI INIT` line opened.

use vstd::prelude::*;
use crate::cfi::{program_parses, CfiItem};
use crate::lexer::{
    find_line_end, find_token_end, find_token_start, item_of_token, line_end, number_value,
    parse_number, read_item, skip_spaces, span_is, token_end,
};

verus! {

/// A function of the module: the addresses `address..address + size`.
#[derive(Clone, Copy, Debug, PartialEq, Eq, Structural)]
pub struct FuncRecord {
    pub address: u64,
    pub size: u64,
}

/// One rule set of a module's call frame information. Its rule text is the
/// items `start..end` of the file's pool.
#[derive(Clone, Copy, Debug, PartialEq, Eq, Structural)]
pub struct CfiLine {
    /// Whether this is the initial rule set of a function.
    pub init: bool,
    /// The address from which the rules hold.
    pub address: u64,
    /// For an initial rule set, the size of the function it covers.
    pub size: u64,
    pub start: usize,
    pub end: usize,
}

/// What one line of a symbol file says.
#[derive(Clone, Copy, Debug, PartialEq, Eq, Structural)]
pub enum LineRecord {
    /// A function record.
    Function(FuncRecord),
    /// An initial rule set; its rule text starts at `rules_at`.
    Init { address: u64, size: u64, rules_at: usize },
    /// A later rule set; its rule text starts at `rules_at`.
    Delta { address: u64, rules_at: usize },
    /// A line that begins as an initial rule set and cannot be read.
    BadInit,
    /// Any other line.
    Other,
}

/// The records of a symbol file. The rule sets of a function are adjacent in
/// `lines`: the initial one first, then the later ones.
pub struct SymbolsView {
    pub functions: Seq<FuncRecord>,
    pub lines: Seq<CfiLine>,
    pub pool: Seq<CfiItem>,
}

/// `FUNC`
pub open spec fn word_func() -> Seq<u8> {
    seq!['F' as u8, 'U' as u8, 'N' as u8, 'C' as u8]
}

/// `STACK`
pub open spec fn word_stack() -> Seq<u8> {
    seq!['S' as u8, 'T' as u8, 'A' as u8, 'C' as u8, 'K' as u8]
}

/// `CFI`
pub open spec fn word_cfi() -> Seq<u8> {
    seq!['C' as u8, 'F' as u8, 'I' as u8]
}

/// `INIT`
pub open spec fn word_init() -> Seq<u8> {
    seq!['I' as u8, 'N' as u8, 'I' as u8, 'T' as u8]
}

/// Where the token after `pos` starts, on a line that ends at `end`.
pub open spec fn next_start(text: Seq<u8>, pos: int, end: int) -> int {
    skip_spaces(text, pos, end)
}

/// Where the token after `pos` stops, on a line that ends at `end`.
pub open spec fn next_stop(text: Seq<u8>, pos: int, end: int) -> int {
    token_end(text, skip_spaces(text, pos, end), end)
}

/// The token after `pos`, on a line that ends at `end`; empty if none is left.
pub open spec fn next_word(text: Seq<u8>, pos: int, end: int) -> Seq<u8> {
    text.subrange(next_start(text, pos, end), next_stop(text, pos, end))
}

/// Whether the rule text of `text` from `pos` to `end` is empty or begins
/// with a key: a token that ends in a colon.
pub open spec fn rules_begin_with_key(text: Seq<u8>, pos: int, end: int) -> bool {
    let word = next_word(text, pos, end);
    word.len() > 0 ==> word[word.len() - 1] == (':' as u8)
}

/// What the line of `text` from `pos` to `end` says. A rule set whose rule
/// text begins with anything but a key cannot be read.
pub open spec fn parse_line(text: Seq<u8>, pos: int, end: int) -> LineRecord {
    let e1 = next_stop(text, pos, end);
    let e2 = next_stop(text, e1, end);
    let e3 = next_stop(text, e2, end);
    let e4 = next_stop(text, e3, end);
    let e5 = next_stop(text, e4, end);
    let w1 = next_word(text, pos, end);
    let w2 = next_word(text, e1, end);
    let w3 = next_word(text, e2, end);
    let w4 = next_word(text, e3, end);
    let w5 = next_word(text, e4, end);
    if w1 == word_func() {
        match (number_value(16, w2), number_value(16, w3), number_value(16, w4)) {
            (Some(address), Some(size), Some(_)) => if w5.len() > 0 {
                LineRecord::Function(FuncRecord { address, size })
            } else {
                LineRecord::Other
            },
            _ => LineRecord::Other,
        }
    } else if w1 == word_stack() && w2 == word_cfi() {
        if w3 == word_init() {
            match (number_value(16, w4), number_value(16, w5)) {
                (Some(address), Some(size)) => if rules_begin_with_key(text, e5, end) {
                    LineRecord::Init { address, size, rules_at: e5 as usize }
                } else {
                    LineRecord::BadInit
                },
                _ => LineRecord::BadInit,
            }
        } else {
            match number_value(16, w3) {
                Some(address) => if rules_begin_with_key(text, e3, end) {
                    LineRecord::Delta { address, rules_at: e3 as usize }
                } else {
                    LineRecord::Other
                },
                None => LineRecord::Other,
            }
        }
    } else {
        LineRecord::Other
    }
}

/// The items that the tokens of `text` from `pos` to `end` stand for.
pub open spec fn rule_items(text: Seq<u8>, pos: int, end: int) -> Seq<CfiItem>
    decreases end - pos,
{
    let s = next_start(text, pos, end);
    let e = next_stop(text, pos, end);
    if pos <= s && s < e && e <= end {
        seq![item_of_token(text.subrange(s, e))] + rule_items(text, e, end)
    } else {
        Seq::empty()
    }
}

/// Where a later rule set for `address` goes among the first `n` rule sets, the
/// last of which belong to the open function: behind every rule set of that
/// function whose address is not greater.
pub open spec fn insert_position(lines: Seq<CfiLine>, address: u64, n: int) -> int
    decreases n,
{
    if n > 0 && !lines[n - 1].init && lines[n - 1].address > address {
        insert_position(lines, address, n - 1)
    } else {
        n
    }
}

/// The records after a line is taken in. `open` says whether the last
/// initial rule set could be read, so that later rule sets have a function to
/// go to.
pub open spec fn apply_line(
    text: Seq<u8>,
    end: int,
    file: SymbolsView,
    open: bool,
    record: LineRecord,
) -> (SymbolsView, bool) {
    match record {
        LineRecord::Function(f) => (
            SymbolsView { functions: file.functions.push(f), lines: file.lines, pool: file.pool },
            open,
        ),
        LineRecord::Init { address, size, rules_at } => {
            let items = rule_items(text, rules_at as int, end);
            let line = CfiLine {
                init: true,
                address,
                size,
                start: file.pool.len() as usize,
                end: (file.pool.len() + items.len()) as usize,
            };
            (
                SymbolsView {
                    functions: file.functions,
                    lines: file.lines.push(line),
                    pool: file.pool + items,
                },
                true,
            )
        },
        LineRecord::Delta { address, rules_at } => if open {
            let items = rule_items(text, rules_at as int, end);
            let line = CfiLine {
                init: false,
                address,
                size: 0,
                start: file.pool.len() as usize,
                end: (file.pool.len() + items.len()) as usize,
            };
            (
                SymbolsView {
                    functions: file.functions,
                    lines: file.lines.insert(
                        insert_position(file.lines, address, file.lines.len() as int),
                        line,
                    ),
                    pool: file.pool + items,
                },
                true,
            )
        } else {
            (file, false)
        },
        LineRecord::BadInit => (file, false),
        LineRecord::Other => (file, open),
    }
}

/// The records after the lines of `text` from `pos` on are taken in.
pub open spec fn parse_from(text: Seq<u8>, pos: int, file: SymbolsView, open: bool) -> SymbolsView
    decreases text.len() - pos,
{
    let end = line_end(text, pos);
    if 0 <= pos < text.len() && pos <= end {
        let next = apply_line(text, end, file, open, parse_line(text, pos, end));
        if end < text.len() {
            parse_from(text, end + 1, next.0, next.1)
        } else {
            next.0
        }
    } else {
        file
    }
}

/// The records of the symbol file `text`.
pub open spec fn parse_symbols(text: Seq<u8>) -> SymbolsView {
    parse_from(
        text,
        0,
        SymbolsView { functions: Seq::empty(), lines: Seq::empty(), pool: Seq::empty() },
        false,
    )
}

/// Whether the later rule sets of each function are in ascending order of
/// address, behind the initial rule set of the function.
pub open spec fn lines_ordered(lines: Seq<CfiLine>) -> bool {
    &&& lines.len() > 0 ==> lines[0].init
    &&& forall|j: int|
        0 < j < lines.len() && !lines[j - 1].init && !(#[trigger] lines[j]).init ==> lines[j
            - 1].address <= lines[j].address
}

/// Whether each rule set's text lies inside the pool.
pub open spec fn lines_bounded(lines: Seq<CfiLine>, pool_len: int) -> bool {
    forall|j: int|
        0 <= j < lines.len() ==> (#[trigger] lines[j]).start <= lines[j].end && lines[j].end
            <= pool_len
}

/// Whether the rule text of each rule set is empty or begins with a key.
pub open spec fn lines_keyed(lines: Seq<CfiLine>, pool: Seq<CfiItem>) -> bool {
    forall|j: int|
        0 <= j < lines.len() && (#[trigger] lines[j]).start < lines[j].end
            ==> pool[lines[j].start as int] is Key
}

/// What holds of the records of every parsed file: each rule set's text lies
/// inside the pool and is empty or begins with a key, and the later rule sets
/// of each function are in ascending order of address.
pub open spec fn records_well_formed(file: SymbolsView) -> bool {
    &&& lines_bounded(file.lines, file.pool.len() as int)
    &&& lines_ordered(file.lines)
    &&& lines_keyed(file.lines, file.pool)
}

proof fn lemma_rule_items_keyed(text: Seq<u8>, pos: int, end: int)
    requires
        0 <= pos <= end <= text.len(),
        rules_begin_with_key(text, pos, end),
    ensures
        rule_items(text, pos, end).len() > 0 ==> rule_items(text, pos, end)[0] is Key,
{
    let s = next_start(text, pos, end);
    let e = next_stop(text, pos, end);
    if pos <= s && s < e && e <= end {
        let word = text.subrange(s, e);
        assert(word == next_word(text, pos, end));
        assert(item_of_token(word) is Key);
        assert(rule_items(text, pos, end)[0] == item_of_token(word));
    }
}

/// Whether the rule text from `pos` to `end` is empty or begins with a key.
fn begins_with_key(text: &[u8], pos: usize, end: usize) -> (r: bool)
    requires
        pos <= end <= text@.len(),
    ensures
        r == rules_begin_with_key(text@, pos as int, end as int),
{
    let s = find_token_start(text, pos, end);
    let e = find_token_end(text, s, end);
    if s < e {
        assert(text@.subrange(s as int, e as int)[e - s - 1] == text@[e - 1]);
        text[e - 1] == (':' as u8)
    } else {
        true
    }
}

/// Reads one line of a symbol file.
pub fn read_line(text: &[u8], pos: usize, end: usize) -> (r: LineRecord)
    requires
        pos <= end <= text@.len(),
    ensures
        r == parse_line(text@, pos as int, end as int),
        match r {
            LineRecord::Init { rules_at, .. } => pos <= rules_at <= end && rules_begin_with_key(
                text@,
                rules_at as int,
                end as int,
            ),
            LineRecord::Delta { rules_at, .. } => pos <= rules_at <= end && rules_begin_with_key(
                text@,
                rules_at as int,
                end as int,
            ),
            _ => true,
        },
{
    let s1 = find_token_start(text, pos, end);
    let e1 = find_token_end(text, s1, end);
    let s2 = find_token_start(text, e1, end);
    let e2 = find_token_end(text, s2, end);
    let s3 = find_token_start(text, e2, end);
    let e3 = find_token_end(text, s3, end);
    let s4 = find_token_start(text, e3, end);
    let e4 = find_token_end(text, s4, end);
    let s5 = find_token_start(text, e4, end);
    let e5 = find_token_end(text, s5, end);
    let func: [u8; 4] = ['F' as u8, 'U' as u8, 'N' as u8, 'C' as u8];
    let stack: [u8; 5] = ['S' as u8, 'T' as u8, 'A' as u8, 'C' as u8, 'K' as u8];
    let cfi: [u8; 3] = ['C' as u8, 'F' as u8, 'I' as u8];
    let init: [u8; 4] = ['I' as u8, 'N' as u8, 'I' as u8, 'T' as u8];
    assert(func@ =~= word_func());
    assert(stack@ =~= word_stack());
    assert(cfi@ =~= word_cfi());
    assert(init@ =~= word_init());
    if span_is(text, s1, e1, func.as_slice()) {
        let address = parse_number(true, text, s2, e2);
        let size = parse_number(true, text, s3, e3);
        let parameters = parse_number(true, text, s4, e4);
        match (address, size, parameters) {
            (Some(address), Some(size), Some(_)) => if s5 < e5 {
                LineRecord::Function(FuncRecord { address, size })
            } else {
                LineRecord::Other
            },
            _ => LineRecord::Other,
        }
    } else if span_is(text, s1, e1, stack.as_slice()) && span_is(text, s2, e2, cfi.as_slice()) {
        if span_is(text, s3, e3, init.as_slice()) {
            let address = parse_number(true, text, s4, e4);
            let size = parse_number(true, text, s5, e5);
            match (address, size) {
                (Some(address), Some(size)) => if begins_with_key(text, e5, end) {
                    LineRecord::Init { address, size, rules_at: e5 }
                } else {
                    LineRecord::BadInit
                },
                _ => LineRecord::BadInit,
            }
        } else {
            match parse_number(true, text, s3, e3) {
                Some(address) => if begins_with_key(text, e3, end) {
                    LineRecord::Delta { address, rules_at: e3 }
                } else {
                    LineRecord::Other
                },
                None => LineRecord::Other,
            }
        }
    } else {
        LineRecord::Other
    }
}

/// Appends to `pool` the items of the rule text of `text` from `pos` to `end`.
pub fn read_rule_items(pool: &mut Vec<CfiItem>, text: &[u8], pos: usize, end: usize)
    requires
        pos <= end <= text@.len(),
    ensures
        final(pool)@ == old(pool)@ + rule_items(text@, pos as int, end as int),
{
    let mut p: usize = pos;
    loop
        invariant
            pos <= p <= end <= text@.len(),
            pool@ + rule_items(text@, p as int, end as int) == old(pool)@ + rule_items(
                text@,
                pos as int,
                end as int,
            ),
        ensures
            pool@ == old(pool)@ + rule_items(text@, pos as int, end as int),
        decreases end - p,
    {
        let s = find_token_start(text, p, end);
        let e = find_token_end(text, s, end);
        if s >= e {
            assert(pool@ + Seq::<CfiItem>::empty() =~= pool@);
            break ;
        }
        let item = read_item(text, s, e);
        let ghost before = pool@;
        pool.push(item);
        assert(pool@ + rule_items(text@, e as int, end as int) =~= before + rule_items(
            text@,
            p as int,
            end as int,
        ));
        p = e;
    }
}

proof fn lemma_insert_position(lines: Seq<CfiLine>, address: u64, n: int)
    requires
        0 <= n <= lines.len(),
    ensures
        0 <= insert_position(lines, address, n) <= n,
        forall|j: int|
            insert_position(lines, address, n) <= j < n ==> !(#[trigger] lines[j]).init
                && lines[j].address > address,
        insert_position(lines, address, n) > 0 ==> lines[insert_position(lines, address, n)
            - 1].init || lines[insert_position(lines, address, n) - 1].address <= address,
    decreases n,
{
    if n > 0 && !lines[n - 1].init && lines[n - 1].address > address {
        lemma_insert_position(lines, address, n - 1);
    }
}

/// Finds where a later rule set for `address` goes.
fn find_insert_position(lines: &Vec<CfiLine>, address: u64) -> (r: usize)
    ensures
        r == insert_position(lines@, address, lines@.len() as int),
        r <= lines@.len(),
{
    let mut n: usize = lines.len();
    while n > 0 && !lines[n - 1].init && lines[n - 1].address > address
        invariant
            n <= lines@.len(),
            insert_position(lines@, address, lines@.len() as int) == insert_position(
                lines@,
                address,
                n as int,
            ),
        decreases n,
    {
        n = n - 1;
    }
    n
}

/// Whether `target` lies in the `size` addresses from `address` on.
pub open spec fn covers(address: u64, size: u64, target: u64) -> bool {
    address <= target && target - address < size
}

/// Whether one of the functions covers `target`.
pub open spec fn function_covers(functions: Seq<FuncRecord>, target: u64) -> bool {
    exists|i: int|
        0 <= i < functions.len() && covers(
            (#[trigger] functions[i]).address,
            functions[i].size,
            target,
        )
}

/// The initial rule set that covers `target` most closely among the first
/// `n` rule sets: the one of least size, and of those the first.
pub open spec fn covering_init(lines: Seq<CfiLine>, target: u64, n: int) -> Option<int>
    decreases n,
{
    if n <= 0 {
        None
    } else {
        let before = covering_init(lines, target, n - 1);
        let line = lines[n - 1];
        if line.init && covers(line.address, line.size, target) && (match before {
            Some(b) => line.size < lines[b].size,
            None => true,
        }) {
            Some(n - 1)
        } else {
            before
        }
    }
}

/// The rule text of rule set `j`.
pub open spec fn line_items(file: SymbolsView, j: int) -> Seq<CfiItem> {
    file.pool.subrange(file.lines[j].start as int, file.lines[j].end as int)
}

/// The rule text of the later rule sets from `j` up to the next initial rule
/// set, those left out whose address is above `target`.
pub open spec fn delta_items(file: SymbolsView, j: int, target: u64) -> Seq<CfiItem>
    decreases file.lines.len() - j,
{
    if 0 <= j < file.lines.len() && !file.lines[j].init {
        if file.lines[j].address <= target {
            line_items(file, j) + delta_items(file, j + 1, target)
        } else {
            delta_items(file, j + 1, target)
        }
    } else {
        Seq::empty()
    }
}

/// The rule program in force at `target`: the rule text of the covering
/// initial rule set, then that of each later rule set of the same function
/// whose address is not above `target`. `None` where no initial rule set
/// covers `target`.
pub open spec fn program_at(file: SymbolsView, target: u64) -> Option<Seq<CfiItem>> {
    match covering_init(file.lines, target, file.lines.len() as int) {
        Some(i) => Some(line_items(file, i) + delta_items(file, i + 1, target)),
        None => None,
    }
}

proof fn lemma_delta_items_keyed(file: SymbolsView, j: int, target: u64)
    requires
        records_well_formed(file),
        0 <= j,
    ensures
        delta_items(file, j, target).len() > 0 ==> delta_items(file, j, target)[0] is Key,
    decreases file.lines.len() - j,
{
    if j < file.lines.len() && !file.lines[j].init {
        lemma_delta_items_keyed(file, j + 1, target);
    }
}

/// The rule program in force at any address of a parsed file is well formed:
/// it is empty or begins with a key.
pub proof fn lemma_program_begins_with_key(file: SymbolsView, target: u64)
    requires
        records_well_formed(file),
    ensures
        match program_at(file, target) {
            Some(prog) => program_parses(prog),
            None => true,
        },
{
    match covering_init(file.lines, target, file.lines.len() as int) {
        Some(i) => {
            lemma_covering_init_in_range(file.lines, target, file.lines.len() as int);
            lemma_delta_items_keyed(file, i + 1, target);
        },
        None => {},
    }
}

proof fn lemma_covering_init_in_range(lines: Seq<CfiLine>, target: u64, n: int)
    requires
        0 <= n <= lines.len(),
    ensures
        match covering_init(lines, target, n) {
            Some(i) => 0 <= i < n,
            None => true,
        },
    decreases n,
{
    if n > 0 {
        lemma_covering_init_in_range(lines, target, n - 1);
    }
}

/// The parsed symbol file of one module.
pub struct SymbolFile {
    functions: Vec<FuncRecord>,
    lines: Vec<CfiLine>,
    pool: Vec<CfiItem>,
}

impl View for SymbolFile {
    type V = SymbolsView;

    closed spec fn view(&self) -> SymbolsView {
        SymbolsView { functions: self.functions@, lines: self.lines@, pool: self.pool@ }
    }
}

impl SymbolFile {
    #[verifier::type_invariant]
    spec fn well_formed(self) -> bool {
        records_well_formed(
            SymbolsView { functions: self.functions@, lines: self.lines@, pool: self.pool@ },
        )
    }

    /// Parses the text of a symbol file. Lines that are not function records
    /// or rule sets are passed over, and so is a later rule set that follows
    /// an initial rule set that could not be read.
    pub fn parse(text: &[u8]) -> (r: SymbolFile)
        ensures
            r@ == parse_symbols(text@),
            records_well_formed(r@),
    {
        let mut functions: Vec<FuncRecord> = Vec::new();
        let mut lines: Vec<CfiLine> = Vec::new();
        let mut pool: Vec<CfiItem> = Vec::new();
        let mut open = false;
        let mut pos: usize = 0;
        while pos < text.len()
            invariant
                pos <= text@.len(),
                lines_ordered(lines@),
                lines_bounded(lines@, pool@.len() as int),
                lines_keyed(lines@, pool@),
                open ==> lines@.len() > 0,
                parse_from(
                    text@,
                    pos as int,
                    SymbolsView { functions: functions@, lines: lines@, pool: pool@ },
                    open,
                ) == parse_symbols(text@),
            decreases text@.len() - pos,
        {
            let ghost file = SymbolsView { functions: functions@, lines: lines@, pool: pool@ };
            let ghost was_open = open;
            let end = find_line_end(text, pos);
            let record = read_line(text, pos, end);
            match record {
                LineRecord::Function(f) => {
                    functions.push(f);
                },
                LineRecord::Init { address, size, rules_at } => {
                    let start = pool.len();
                    read_rule_items(&mut pool, text, rules_at, end);
                    lines.push(CfiLine { init: true, address, size, start, end: pool.len() });
                    open = true;
                    proof {
                        lemma_rule_items_keyed(text@, rules_at as int, end as int);
                        let new = lines@;
                        assert forall|j: int|
                            0 <= j < new.len() && (#[trigger] new[j]).start
                                < new[j].end implies pool@[new[j].start as int] is Key by {
                            if j < file.lines.len() {
                                assert(new[j] == file.lines[j]);
                            }
                        }
                    }
                },
                LineRecord::Delta { address, rules_at } => {
                    if open {
                        let start = pool.len();
                        read_rule_items(&mut pool, text, rules_at, end);
                        let at = find_insert_position(&lines, address);
                        proof {
                            lemma_insert_position(file.lines, address, file.lines.len() as int);
                        }
                        lines.insert(
                            at,
                            CfiLine { init: false, address, size: 0, start, end: pool.len() },
                        );
                        proof {
                            let new = lines@;
                            assert forall|j: int|
                                0 < j < new.len() && !new[j - 1].init && !(
                                #[trigger] new[j]).init implies new[j - 1].address
                                <= new[j].address by {
                                if j < at {
                                    assert(new[j] == file.lines[j]);
                                } else if j == at {
                                } else if j == at + 1 {
                                    assert(new[j] == file.lines[j - 1]);
                                } else {
                                    assert(new[j] == file.lines[j - 1]);
                                    assert(new[j - 1] == file.lines[j - 2]);
                                }
                            }
                            assert forall|j: int| 0 <= j < new.len() implies (
                            #[trigger] new[j]).start <= new[j].end && new[j].end
                                <= pool@.len() by {
                                if j < at {
                                    assert(new[j] == file.lines[j]);
                                } else if j > at {
                                    assert(new[j] == file.lines[j - 1]);
                                }
                            }
                            lemma_rule_items_keyed(text@, rules_at as int, end as int);
                            assert forall|j: int|
                                0 <= j < new.len() && (#[trigger] new[j]).start
                                    < new[j].end implies pool@[new[j].start as int] is Key by {
                                if j < at {
                                    assert(new[j] == file.lines[j]);
                                } else if j > at {
                                    assert(new[j] == file.lines[j - 1]);
                                }
                            }
                        }
                    }
                },
                LineRecord::BadInit => {
                    open = false;
                },
                LineRecord::Other => {},
            }
            proof {
                let next = apply_line(text@, end as int, file, was_open, record);
                let now = SymbolsView { functions: functions@, lines: lines@, pool: pool@ };
                assert(now.functions =~= next.0.functions);
                assert(now.lines =~= next.0.lines);
                assert(now.pool =~= next.0.pool);
                assert(now == next.0);
                assert(open == next.1);
            }
            if end == text.len() {
                pos = end;
            } else {
                pos = end + 1;
            }
        }
        SymbolFile { functions, lines, pool }
    }

    /// Whether a function record covers the address `target`.
    pub fn has_function_at(&self, target: u64) -> (r: bool)
        ensures
            r == function_covers(self@.functions, target),
    {
        let mut i: usize = 0;
        while i < self.functions.len()
            invariant
                i <= self.functions@.len(),
                forall|j: int|
                    0 <= j < i ==> !covers(
                        (#[trigger] self.functions@[j]).address,
                        self.functions@[j].size,
                        target,
                    ),
            decreases self.functions@.len() - i,
        {
            let f = self.functions[i];
            if f.address <= target && target - f.address < f.size {
                return true;
            }
            i = i + 1;
        }
        false
    }

    /// The rule program in force at the address `target`, if an initial rule
    /// set covers it.
    pub fn cfi_program(&self, target: u64) -> (r: Option<Vec<CfiItem>>)
        ensures
            match r {
                Some(prog) => program_at(self@, target) == Some(prog@) && program_parses(prog@),
                None => program_at(self@, target) is None,
            },
    {
        proof {
            use_type_invariant(self);
            lemma_program_begins_with_key(self@, target);
        }
        let mut best: Option<usize> = None;
        let mut i: usize = 0;
        while i < self.lines.len()
            invariant
                i <= self.lines@.len(),
                match best {
                    Some(b) => covering_init(self.lines@, target, i as int) == Some(b as int) && b
                        < i,
                    None => covering_init(self.lines@, target, i as int) is None,
                },
            decreases self.lines@.len() - i,
        {
            let line = self.lines[i];
            if line.init && line.address <= target && target - line.address < line.size {
                let closer = match best {
                    Some(b) => line.size < self.lines[b].size,
                    None => true,
                };
                if closer {
                    best = Some(i);
                }
            }
            i = i + 1;
        }
        match best {
            None => None,
            Some(b) => {
                let mut prog: Vec<CfiItem> = Vec::new();
                self.append_line(&mut prog, b);
                let mut j: usize = b + 1;
                while j < self.lines.len() && !self.lines[j].init
                    invariant
                        b < j <= self.lines@.len(),
                        prog@ + delta_items(self@, j as int, target) == line_items(self@, b as int)
                            + delta_items(self@, b + 1, target),
                    decreases self.lines@.len() - j,
                {
                    let ghost before = prog@;
                    if self.lines[j].address <= target {
                        self.append_line(&mut prog, j);
                        assert(prog@ + delta_items(self@, j + 1, target) =~= before + delta_items(
                            self@,
                            j as int,
                            target,
                        ));
                    }
                    j = j + 1;
                }
                assert(prog@ + Seq::<CfiItem>::empty() =~= prog@);
                Some(prog)
            },
        }
    }

    /// Appends the rule text of rule set `j` to `prog`.
    fn append_line(&self, prog: &mut Vec<CfiItem>, j: usize)
        requires
            j < self@.lines.len(),
        ensures
            final(prog)@ == old(prog)@ + line_items(self@, j as int),
    {
        proof {
            use_type_invariant(self);
        }
        let line = self.lines[j];
        let mut k: usize = line.start;
        while k < line.end
            invariant
                line == self.lines@[j as int],
                line.start <= k <= line.end <= self.pool@.len(),
                prog@ == old(prog)@ + self.pool@.subrange(line.start as int, k as int),
            decreases line.end - k,
        {
            prog.push(self.pool[k]);
            assert(self.pool@.subrange(line.start as int, k + 1) =~= self.pool@.subrange(
                line.start as int,
                k as int,
            ).push(self.pool@[k as int]));
            k = k + 1;
        }
    }
}

/// The symbols of one module, as a table holds them.
pub struct SymbolEntryView {
    pub name: Seq<char>,
    pub file: SymbolsView,
}

/// The symbols that a table holds for the module called `name`, looking
/// at its first `n` entries: those of the last entry under that name.
pub open spec fn symbols_for(table: Seq<SymbolEntryView>, name: Seq<char>, n: int) -> Option<
    SymbolsView,
>
    decreases n,
{
    if n <= 0 {
        None
    } else if table[n - 1].name == name {
        Some(table[n - 1].file)
    } else {
        symbols_for(table, name, n - 1)
    }
}

/// The symbols loaded for the module called `name`, if any are.
pub open spec fn loaded_symbols(table: Seq<SymbolEntryView>, name: Seq<char>) -> Option<
    SymbolsView,
> {
    symbols_for(table, name, table.len() as int)
}

/// Symbols of one module, under the module's name.
pub struct SymbolEntry {
    pub name: String,
    pub file: SymbolFile,
}

/// The symbol files that are loaded, by module name. Symbols added under a
/// name replace those added under it before.
pub struct SymbolTable {
    entries: Vec<SymbolEntry>,
}

impl View for SymbolTable {
    type V = Seq<SymbolEntryView>;

    closed spec fn view(&self) -> Seq<SymbolEntryView> {
        Seq::new(
            self.entries@.len(),
            |i: int| SymbolEntryView { name: self.entries@[i].name@, file: self.entries@[i].file@ },
        )
    }
}

impl SymbolTable {
    /// A table without symbols.
    pub fn new() -> (r: SymbolTable)
        ensures
            r@ == Seq::<SymbolEntryView>::empty(),
    {
        let r = SymbolTable { entries: Vec::new() };
        assert(r@ =~= Seq::<SymbolEntryView>::empty());
        r
    }

    /// Loads `file` as the symbols of the module called `name`.
    pub fn insert(&mut self, name: String, file: SymbolFile)
        ensures
            final(self)@ == old(self)@.push(SymbolEntryView { name: name@, file: file@ }),
    {
        let ghost entry = SymbolEntryView { name: name@, file: file@ };
        self.entries.push(SymbolEntry { name, file });
        assert(self@ =~= old(self)@.push(entry));
    }

    /// The symbols loaded for the module called `name`.
    pub fn lookup(&self, name: &str) -> (r: Option<&SymbolFile>)
        ensures
            match r {
                Some(file) => loaded_symbols(self@, name@) == Some(file@),
                None => loaded_symbols(self@, name@) is None,
            },
    {
        let wanted = name.to_owned();
        let mut n: usize = self.entries.len();
        while n > 0
            invariant
                n <= self.entries@.len(),
                self@.len() == self.entries@.len(),
                wanted@ == name@,
                loaded_symbols(self@, name@) == symbols_for(self@, name@, n as int),
            decreases n,
        {
            n = n - 1;
            if self.entries[n].name == wanted {
                return Some(&self.entries[n].file);
            }
        }
        None
    }
}

} // verus!
