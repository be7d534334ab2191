//! Binding an image's imports: the bind-opcode imports, the non-lazy symbol
//! pointers, the initializers to run and the Objective-C class lists, each
//! read from the image and turned into the list of slots and addresses the
//! loader then writes or calls.

use vstd::prelude::*;
use crate::bytes::{le_u32, read_le_u32, wrap64, add_wrapping, add_signed_wrapping};
use crate::linker::{LinkError, goblin_symbols, symbol_list, opt_pair_is};
use crate::macho::{MachOBinary, SectionInfo, LinkeditCmd, parsed_image, goblin_sections, entry_fits,
    entry_overflow_text, check_entry,
    goblin_linkedit_commands, find_text_segment, first_text_index};
use crate::text::{fixed_name, name_text, owned};
use crate::link_tables::{binds_within_tables, binds_within_tables_check, binds_refused_text, binds_refused_error};

verus! {

broadcast use vstd::string::group_string_axioms;

/// One import of the image as dyld's bind opcodes describe it.
#[derive(Debug)]
pub struct ImportBinding {
    /// Where the resolved address is written.
    pub address: u64,
    pub dylib: String,
    pub symbol: String,
    pub is_weak: bool,
}

/// goblin's imports of an image: (address, dylib, name, weak) for each, or
/// the error of parsing the image or running its bind opcodes.
pub uninterp spec fn goblin_import_list(data: Seq<u8>) -> Result<Seq<(u64, Seq<char>, Seq<char>, bool)>, Seq<char>>;

/// The import list the loader reads: goblin's, or the entry-overflow error
/// where `entry_fits` fails.
pub open spec fn import_list(data: Seq<u8>) -> Result<Seq<(u64, Seq<char>, Seq<char>, bool)>, Seq<char>> {
    if !entry_fits(data) {
        Err(entry_overflow_text())
    } else if !binds_within_tables(data) {
        Err(binds_refused_text())
    } else {
        goblin_import_list(data)
    }
}

/// Whether an exec import carries the given one.
pub open spec fn import_matches(x: ImportBinding, v: (u64, Seq<char>, Seq<char>, bool)) -> bool {
    x.address == v.0 && x.dylib@ == v.1 && x.symbol@ == v.2 && x.is_weak == v.3
}

/// `MachO::parse(data, 0)` then `imports()`: each import's address, dylib,
/// name and weakness.
///
/// Its `requires` keeps out the images on which goblin's entry arithmetic
/// overflows (`entry_fits`) and the bind opcode streams on which goblin's
/// interpreter would index past its segment or library list or add an
/// offset past u64 (`binds_within_tables`).
#[verifier::external_body]
fn goblin_imports(data: &[u8]) -> (r: Result<Vec<ImportBinding>, String>)
    requires
        entry_fits(data@),
        binds_within_tables(data@),
    ensures
        match goblin_import_list(data@) {
            Ok(v) => r matches Ok(x) && x@.len() == v.len()
                && forall|i: int| 0 <= i < v.len() ==> #[trigger] import_matches(x@[i], v[i]),
            Err(e) => r matches Err(m) && m@ == e,
        },
{
    let m = goblin::mach::MachO::parse(data, 0).map_err(|e| e.to_string())?;
    let imports = m.imports().map_err(|e| e.to_string())?;
    Ok(imports.iter().map(|i| ImportBinding { address: i.address, dylib: i.dylib.to_string(),
        symbol: i.name.to_string(), is_weak: i.is_weak }).collect())
}

/// The imports of an image, in the order its bind opcodes list them.
pub fn import_bindings(data: &[u8]) -> (r: Result<Vec<ImportBinding>, LinkError>)
    ensures
        match import_list(data@) {
            Ok(v) => r matches Ok(x) && x@.len() == v.len()
                && forall|i: int| 0 <= i < v.len() ==> #[trigger] import_matches(x@[i], v[i]),
            Err(e) => r matches Err(LinkError::Parse(m)) && m@ == e,
        },
{
    match check_entry(data) {
        Err(m) => { return Err(LinkError::Parse(m)); },
        Ok(_) => {},
    }
    if !binds_within_tables_check(data) {
        return Err(LinkError::Parse(binds_refused_error()));
    }
    match goblin_imports(data) {
        Ok(v) => Ok(v),
        Err(e) => Err(LinkError::Parse(e)),
    }
}

// ---- Non-lazy symbol pointers ----

/// The section type of S_NON_LAZY_SYMBOL_POINTERS.
pub const S_NON_LAZY_SYMBOL_POINTERS: u32 = 6;

/// The last non-lazy-pointer section among the first `n` segments' sections
/// (a later one replaces an earlier one): its address and number of slots.
pub open spec fn nl_section_upto(secs: Seq<Seq<Option<SectionInfo>>>, n: nat) -> Option<(u64, u64)>
    decreases n,
{
    if n == 0 {
        None
    } else {
        match nl_in_segment(secs[n - 1], secs[n - 1].len()) {
            Some(x) => Some(x),
            None => nl_section_upto(secs, (n - 1) as nat),
        }
    }
}

/// The last non-lazy-pointer section among a segment's first `n` sections.
pub open spec fn nl_in_segment(s: Seq<Option<SectionInfo>>, n: nat) -> Option<(u64, u64)>
    decreases n,
{
    if n == 0 {
        None
    } else {
        match s[n - 1] {
            Some(sec) => if sec.flags & 0xff == S_NON_LAZY_SYMBOL_POINTERS {
                Some((sec.addr, sec.size / 8))
            } else {
                nl_in_segment(s, (n - 1) as nat)
            },
            None => nl_in_segment(s, (n - 1) as nat),
        }
    }
}

/// The last LC_SYMTAB's (symoff, nsyms) among the first `n` commands, (0, 0) without one.
pub open spec fn symtab_upto(cmds: Seq<Option<LinkeditCmd>>, n: nat) -> (u32, u32)
    decreases n,
{
    if n == 0 {
        (0, 0)
    } else {
        match cmds[n - 1] {
            Some(LinkeditCmd::Symtab(off, count, _)) => (off, count),
            _ => symtab_upto(cmds, (n - 1) as nat),
        }
    }
}

/// The last LC_DYSYMTAB's (indirectsymoff, nindirectsyms) among the first `n`
/// commands, (0, 0) without one.
pub open spec fn dysymtab_upto(cmds: Seq<Option<LinkeditCmd>>, n: nat) -> (u32, u32)
    decreases n,
{
    if n == 0 {
        (0, 0)
    } else {
        match cmds[n - 1] {
            Some(LinkeditCmd::Dysymtab(off, count)) => (off, count),
            _ => dysymtab_upto(cmds, (n - 1) as nat),
        }
    }
}

/// Where the indirect symbol table lies: where LC_DYSYMTAB says when it
/// names one, else right after the symbol table (16 bytes per entry).
pub open spec fn indirect_table_offset(cmds: Seq<Option<LinkeditCmd>>) -> int {
    let (ioff, icount) = dysymtab_upto(cmds, cmds.len());
    let (soff, nsyms) = symtab_upto(cmds, cmds.len());
    if ioff > 0 && icount > 0 { ioff as int } else { soff + nsyms * 16 }
}

/// The name of symbol `idx`, when the table has a readable entry there.
pub open spec fn symbol_name_at(syms: Seq<Option<(Seq<char>, u64)>>, idx: int) -> Option<Seq<char>> {
    if 0 <= idx < syms.len() {
        match syms[idx] {
            Some((n, _)) => Some(n),
            None => None,
        }
    } else {
        None
    }
}

/// The slots among the first `n` pointers that the indirect table names a
/// symbol for: each slot's address and the symbol's name. An entry that
/// does not lie within the data ends the table.
pub open spec fn nl_slots_upto(data: Seq<u8>, ind: int, addr: u64, syms: Seq<Option<(Seq<char>, u64)>>,
    n: nat) -> Seq<(u64, Seq<char>)>
    decreases n,
{
    if n == 0 {
        Seq::empty()
    } else {
        let prev = nl_slots_upto(data, ind, addr, syms, (n - 1) as nat);
        let k = n - 1;
        let off = ind + k * 4;
        if off + 4 > data.len() {
            prev
        } else {
            match symbol_name_at(syms, le_u32(data, off) as int) {
                Some(name) => prev.push((wrap64(addr + k * 8), name)),
                None => prev,
            }
        }
    }
}

/// What `nl_symbol_slots` gives for an image: for each non-lazy symbol
/// pointer of the last such section that the indirect table names a symbol
/// for, the pointer's address and the symbol; or goblin's error.
pub open spec fn spec_nl_slots(data: Seq<u8>) -> Result<Seq<(u64, Seq<char>)>, Seq<char>> {
    match parsed_image(data) {
        Err(e) => Err(e),
        Ok(s) => match nl_section_upto(s.sections, s.sections.len()) {
            None => Ok(Seq::empty()),
            Some((addr, count)) => if count == 0 {
                Ok(Seq::empty())
            } else {
                let cmds = Seq::new(s.commands.len(), |i: int| s.commands[i].linkedit);
                match symbol_list(data) {
                    Err(e) => Err(e),
                    Ok(syms) => Ok(nl_slots_upto(data, indirect_table_offset(cmds), addr, syms, count as nat)),
                }
            },
        },
    }
}

/// The last non-lazy-pointer section of the image.
fn find_nl_section(secs: &Vec<Vec<Option<SectionInfo>>>) -> (r: Option<(u64, u64)>)
    ensures
        r == nl_section_upto(Seq::new(secs@.len(), |i: int| secs@[i]@), secs@.len()),
{
    let ghost all = Seq::new(secs@.len(), |i: int| secs@[i]@);
    let mut found: Option<(u64, u64)> = None;
    let mut i: usize = 0;
    proof {
        assert forall|m: nat| #![trigger nl_section_upto(all, m)] 0 <= m <= all.len()
            implies nl_section_upto(all, m) == nl_after(all, 0, m, None) by {
            lemma_nl_upto_is_after(all, m);
        }
    }
    while i < secs.len()
        invariant
            i <= secs@.len(),
            all == Seq::new(secs@.len(), |i: int| secs@[i]@),
            forall|m: nat| #![trigger nl_section_upto(all, m)] i <= m <= all.len()
                ==> nl_section_upto(all, m) == nl_after(all, i as nat, m, found),
        decreases secs.len() - i,
    {
        let seg = &secs[i];
        let mut j: usize = 0;
        let mut local: Option<(u64, u64)> = None;
        while j < seg.len()
            invariant
                j <= seg@.len(),
                local == nl_in_segment(seg@, j as nat),
            decreases seg.len() - j,
        {
            if let Some(sec) = seg[j] {
                if sec.flags & 0xff == S_NON_LAZY_SYMBOL_POINTERS {
                    local = Some((sec.addr, sec.size / 8));
                }
            }
            j = j + 1;
        }
        proof {
            assert(all[i as int] == seg@);
            assert forall|m: nat| #![trigger nl_section_upto(all, m)] i + 1 <= m <= all.len()
                implies nl_section_upto(all, m) == nl_after(all, (i + 1) as nat, m, match local { Some(x) => Some(x), None => found }) by {
                lemma_nl_after_step(all, i as nat, m, found);
            }
        }
        if local.is_some() {
            found = local;
        }
        i = i + 1;
    }
    proof {
        assert(nl_section_upto(all, all.len()) == nl_after(all, i as nat, all.len(), found));
    }
    found
}

/// The last non-lazy-pointer section among segments `from..m`, or `prev`
/// when they hold none.
pub open spec fn nl_after(secs: Seq<Seq<Option<SectionInfo>>>, from: nat, m: nat, prev: Option<(u64, u64)>) -> Option<(u64, u64)>
    decreases m - from,
{
    if m <= from {
        prev
    } else {
        match nl_in_segment(secs[m - 1], secs[m - 1].len()) {
            Some(x) => Some(x),
            None => nl_after(secs, from, (m - 1) as nat, prev),
        }
    }
}

proof fn lemma_nl_after_step(secs: Seq<Seq<Option<SectionInfo>>>, i: nat, m: nat, prev: Option<(u64, u64)>)
    requires
        i + 1 <= m,
    ensures
        nl_after(secs, i, m, prev) == nl_after(secs, i + 1, m,
            match nl_in_segment(secs[i as int], secs[i as int].len()) { Some(x) => Some(x), None => prev }),
    decreases m - i,
{
    let x = match nl_in_segment(secs[i as int], secs[i as int].len()) { Some(x) => Some(x), None => prev };
    if m > i + 1 {
        lemma_nl_after_step(secs, i, (m - 1) as nat, prev);
        assert(nl_after(secs, i, m, prev) == match nl_in_segment(secs[m - 1], secs[m - 1].len()) {
            Some(y) => Some(y), None => nl_after(secs, i, (m - 1) as nat, prev) });
        assert(nl_after(secs, i + 1, m, x) == match nl_in_segment(secs[m - 1], secs[m - 1].len()) {
            Some(y) => Some(y), None => nl_after(secs, i + 1, (m - 1) as nat, x) });
    } else {
        assert(nl_after(secs, i, i, prev) == prev);
        assert(nl_after(secs, i + 1, i + 1, x) == x);
    }
}

proof fn lemma_nl_count_bound(secs: Seq<Seq<Option<SectionInfo>>>, n: nat)
    ensures
        nl_section_upto(secs, n) matches Some((a, c)) ==> c <= u64::MAX / 8,
    decreases n,
{
    if n > 0 {
        lemma_nl_in_segment_bound(secs[n - 1], secs[n - 1].len());
        lemma_nl_count_bound(secs, (n - 1) as nat);
    }
}

proof fn lemma_nl_in_segment_bound(s: Seq<Option<SectionInfo>>, n: nat)
    ensures
        nl_in_segment(s, n) matches Some((a, c)) ==> c <= u64::MAX / 8,
    decreases n,
{
    if n > 0 {
        lemma_nl_in_segment_bound(s, (n - 1) as nat);
    }
}

proof fn lemma_nl_upto_is_after(secs: Seq<Seq<Option<SectionInfo>>>, m: nat)
    ensures
        nl_section_upto(secs, m) == nl_after(secs, 0, m, None),
    decreases m,
{
    if m > 0 {
        lemma_nl_upto_is_after(secs, (m - 1) as nat);
    }
}

/// The last LC_SYMTAB's (symoff, nsyms).
fn last_symtab(cmds: &Vec<Option<LinkeditCmd>>) -> (r: (u32, u32))
    ensures
        r == symtab_upto(cmds@, cmds@.len()),
{
    let mut r: (u32, u32) = (0, 0);
    let mut i: usize = 0;
    while i < cmds.len()
        invariant
            i <= cmds@.len(),
            r == symtab_upto(cmds@, i as nat),
        decreases cmds.len() - i,
    {
        if let Some(LinkeditCmd::Symtab(off, count, _)) = cmds[i] {
            r = (off, count);
        }
        i = i + 1;
    }
    r
}

/// The last LC_DYSYMTAB's (indirectsymoff, nindirectsyms).
fn last_dysymtab(cmds: &Vec<Option<LinkeditCmd>>) -> (r: (u32, u32))
    ensures
        r == dysymtab_upto(cmds@, cmds@.len()),
{
    let mut r: (u32, u32) = (0, 0);
    let mut i: usize = 0;
    while i < cmds.len()
        invariant
            i <= cmds@.len(),
            r == dysymtab_upto(cmds@, i as nat),
        decreases cmds.len() - i,
    {
        if let Some(LinkeditCmd::Dysymtab(off, count)) = cmds[i] {
            r = (off, count);
        }
        i = i + 1;
    }
    r
}

/// Once an entry of the indirect table falls outside the data, so do all
/// later ones: the slots stay as they were.
proof fn lemma_nl_slots_stop(data: Seq<u8>, ind: int, addr: u64, syms: Seq<Option<(Seq<char>, u64)>>, k: nat, n: nat)
    requires
        k <= n,
        ind >= 0,
        ind + k * 4 + 4 > data.len(),
    ensures
        nl_slots_upto(data, ind, addr, syms, n) == nl_slots_upto(data, ind, addr, syms, k),
    decreases n - k,
{
    if n > k {
        lemma_nl_slots_stop(data, ind, addr, syms, k, (n - 1) as nat);
        assert(ind + (n - 1) * 4 >= ind + k * 4) by (nonlinear_arith)
            requires n - 1 >= k;
    }
}

/// A slot list as texts.
pub open spec fn slots_view(v: Seq<(u64, String)>) -> Seq<(u64, Seq<char>)> {
    Seq::new(v.len(), |i: int| (v[i].0, v[i].1@))
}

/// The non-lazy symbol pointers of an image to bind: each pointer's address
/// and the symbol the indirect symbol table names for it, in slot order.
/// All of them are resolved in libSystem.
pub fn nl_symbol_slots(data: &[u8]) -> (r: Result<Vec<(u64, String)>, LinkError>)
    ensures
        match spec_nl_slots(data@) {
            Ok(v) => r matches Ok(x) && slots_view(x@) == v,
            Err(e) => r matches Err(LinkError::Parse(m)) && m@ == e,
        },
{
    match check_entry(data) {
        Err(m) => { return Err(LinkError::Parse(m)); },
        Ok(_) => {},
    }
    let secs = match goblin_sections(data) {
        Ok(v) => v,
        Err(e) => { return Err(LinkError::Parse(e)); },
    };
    let ghost s = parsed_image(data@)->Ok_0;
    proof {
        assert(Seq::new(secs@.len(), |i: int| secs@[i]@) =~= s.sections);
    }
    let (addr, count) = match find_nl_section(&secs) {
        Some(x) => x,
        None => { return Ok(Vec::new()); },
    };
    proof {
        lemma_nl_count_bound(s.sections, s.sections.len());
    }
    if count == 0 {
        return Ok(Vec::new());
    }
    let cmds = match goblin_linkedit_commands(data) {
        Ok(v) => v,
        Err(e) => { return Err(LinkError::Parse(e)); },
    };
    let ghost cv = Seq::new(s.commands.len(), |i: int| s.commands[i].linkedit);
    proof {
        assert(cmds@ =~= cv);
    }
    let (soff, nsyms) = last_symtab(&cmds);
    let (ioff, icount) = last_dysymtab(&cmds);
    let ind: u64 = if ioff > 0 && icount > 0 { ioff as u64 } else { soff as u64 + nsyms as u64 * 16 };
    let syms = match goblin_symbols(data) {
        Ok(v) => v,
        Err(e) => { return Err(LinkError::Parse(e)); },
    };
    let ghost sv = symbol_list(data@)->Ok_0;
    let mut out: Vec<(u64, String)> = Vec::new();
    let mut k: u64 = 0;
    proof {
        assert(spec_nl_slots(data@) == Ok::<Seq<(u64, Seq<char>)>, Seq<char>>(
            nl_slots_upto(data@, ind as int, addr, sv, count as nat)));
    }
    while k < count
        invariant
            spec_nl_slots(data@) == Ok::<Seq<(u64, Seq<char>)>, Seq<char>>(
                nl_slots_upto(data@, ind as int, addr, sv, count as nat)),
            k <= count,
            count <= u64::MAX / 8,
            ind <= 0x1_0000_0000 + 0x10_0000_0000,
            ind == indirect_table_offset(cv),
            syms@.len() == sv.len(),
            forall|j: int| 0 <= j < sv.len() ==> #[trigger] opt_pair_is(syms@[j], sv[j]),
            slots_view(out@) == nl_slots_upto(data@, ind as int, addr, sv, k as nat),
        decreases count - k,
    {
        let off = ind + k * 4;
        if off + 4 > data.len() as u64 {
            proof {
                lemma_nl_slots_stop(data@, ind as int, addr, sv, k as nat, count as nat);
            }
            return Ok(out);
        }
        let idx = read_le_u32(data, off as usize);
        let ghost before = out@;
        if (idx as usize) < syms.len() {
            proof {
                assert(opt_pair_is(syms@[idx as int], sv[idx as int]));
            }
            if let Some((name, _)) = &syms[idx as usize] {
                let slot = add_wrapping(addr, k * 8);
                out.push((slot, name.clone()));
                proof {
                    assert(slots_view(out@) =~= slots_view(before).push((slot, name@)));
                }
            }
        }
        k = k + 1;
        proof {
            assert(slots_view(out@) =~= nl_slots_upto(data@, ind as int, addr, sv, k as nat));
        }
    }
    Ok(out)
}

// ---- Initializers and Objective-C class lists ----

/// The (address, size) of each section named `name` among a segment's first
/// `n` sections, in order.
pub open spec fn named_in_segment(s: Seq<Option<SectionInfo>>, name: Seq<char>, n: nat) -> Seq<(u64, u64)>
    decreases n,
{
    if n == 0 {
        Seq::empty()
    } else {
        let prev = named_in_segment(s, name, (n - 1) as nat);
        match s[n - 1] {
            Some(sec) => if name_text(sec.sectname@) == name { prev.push((sec.addr, sec.size)) } else { prev },
            None => prev,
        }
    }
}

/// The (address, size) of each section named `name` in the first `n`
/// segments, segment by segment.
pub open spec fn named_sections(secs: Seq<Seq<Option<SectionInfo>>>, name: Seq<char>, n: nat) -> Seq<(u64, u64)>
    decreases n,
{
    if n == 0 {
        Seq::empty()
    } else {
        named_sections(secs, name, (n - 1) as nat) + named_in_segment(secs[n - 1], name, secs[n - 1].len())
    }
}

/// The sections named `name`, segment by segment.
fn find_named_sections(secs: &Vec<Vec<Option<SectionInfo>>>, name: &str) -> (r: Vec<(u64, u64)>)
    ensures
        r@ == named_sections(Seq::new(secs@.len(), |i: int| secs@[i]@), name@, secs@.len()),
{
    let ghost all = Seq::new(secs@.len(), |i: int| secs@[i]@);
    let wanted = owned(name);
    let mut out: Vec<(u64, u64)> = Vec::new();
    let mut i: usize = 0;
    while i < secs.len()
        invariant
            i <= secs@.len(),
            all == Seq::new(secs@.len(), |i: int| secs@[i]@),
            wanted@ == name@,
            out@ == named_sections(all, name@, i as nat),
        decreases secs.len() - i,
    {
        let seg = &secs[i];
        let ghost base = out@;
        let mut j: usize = 0;
        while j < seg.len()
            invariant
                j <= seg@.len(),
                wanted@ == name@,
                out@ == base + named_in_segment(seg@, name@, j as nat),
            decreases seg.len() - j,
        {
            if let Some(sec) = seg[j] {
                if fixed_name(&sec.sectname) == wanted {
                    out.push((sec.addr, sec.size));
                }
            }
            j = j + 1;
            proof {
                assert(out@ =~= base + named_in_segment(seg@, name@, j as nat));
            }
        }
        proof {
            assert(all[i as int] == seg@);
        }
        i = i + 1;
    }
    out
}

/// One initializer step: an LC_ROUTINES_64 function, or a table of
/// function pointers (a __mod_init_func section) with its number of entries.
#[derive(Debug)]
pub enum InitStep {
    Routine(u64),
    Table { addr: u64, count: u64 },
}

/// The LC_ROUTINES_64 init addresses among the first `n` commands, in order.
pub open spec fn routines_upto(cmds: Seq<Option<LinkeditCmd>>, n: nat) -> Seq<u64>
    decreases n,
{
    if n == 0 {
        Seq::empty()
    } else {
        match cmds[n - 1] {
            Some(LinkeditCmd::Routines64(a)) => routines_upto(cmds, (n - 1) as nat).push(a),
            _ => routines_upto(cmds, (n - 1) as nat),
        }
    }
}

pub open spec fn mod_init_func_name() -> Seq<char> {
    "__mod_init_func"@
}

pub open spec fn objc_classlist_name() -> Seq<char> {
    "__objc_classlist"@
}

/// Whether `steps` are the LC_ROUTINES_64 functions followed by the
/// __mod_init_func tables of `tables` (address, size).
pub open spec fn init_steps_are(steps: Seq<InitStep>, routines: Seq<u64>, tables: Seq<(u64, u64)>) -> bool {
    &&& steps.len() == routines.len() + tables.len()
    &&& forall|i: int| 0 <= i < routines.len() ==> #[trigger] steps[i] == InitStep::Routine(routines[i])
    &&& forall|j: int| 0 <= j < tables.len() ==> #[trigger] steps[routines.len() + j]
            == (InitStep::Table { addr: tables[j].0, count: tables[j].1 / 8 })
}

/// What runs when an image is initialized, in order: its LC_ROUTINES_64
/// functions, then the entries of each __mod_init_func section.
pub fn initializer_plan(data: &[u8]) -> (r: Result<Vec<InitStep>, LinkError>)
    ensures
        match parsed_image(data@) {
            Ok(s) => r matches Ok(steps) && init_steps_are(steps@,
                routines_upto(Seq::new(s.commands.len(), |i: int| s.commands[i].linkedit), s.commands.len()),
                named_sections(s.sections, mod_init_func_name(), s.sections.len())),
            Err(e) => r matches Err(LinkError::Parse(m)) && m@ == e,
        },
{
    match check_entry(data) {
        Err(m) => { return Err(LinkError::Parse(m)); },
        Ok(_) => {},
    }
    let cmds = match goblin_linkedit_commands(data) {
        Ok(v) => v,
        Err(e) => { return Err(LinkError::Parse(e)); },
    };
    let secs = match goblin_sections(data) {
        Ok(v) => v,
        Err(e) => { return Err(LinkError::Parse(e)); },
    };
    let ghost s = parsed_image(data@)->Ok_0;
    let ghost cv = Seq::new(s.commands.len(), |i: int| s.commands[i].linkedit);
    proof {
        assert(cmds@ =~= cv);
        assert(Seq::new(secs@.len(), |i: int| secs@[i]@) =~= s.sections);
    }
    let mut steps: Vec<InitStep> = Vec::new();
    let mut i: usize = 0;
    while i < cmds.len()
        invariant
            i <= cmds@.len(),
            steps@.len() == routines_upto(cmds@, i as nat).len(),
            forall|k: int| 0 <= k < steps@.len() ==> #[trigger] steps@[k] == InitStep::Routine(routines_upto(cmds@, i as nat)[k]),
        decreases cmds.len() - i,
    {
        if let Some(LinkeditCmd::Routines64(a)) = cmds[i] {
            steps.push(InitStep::Routine(a));
        }
        i = i + 1;
    }
    let ghost nr = steps@.len();
    let tables = find_named_sections(&secs, "__mod_init_func");
    let mut j: usize = 0;
    while j < tables.len()
        invariant
            j <= tables@.len(),
            nr == routines_upto(cmds@, cmds@.len()).len(),
            steps@.len() == nr + j,
            forall|k: int| 0 <= k < nr ==> #[trigger] steps@[k] == InitStep::Routine(routines_upto(cmds@, cmds@.len())[k]),
            forall|k: int| 0 <= k < j ==> #[trigger] steps@[nr + k]
                == (InitStep::Table { addr: tables@[k].0, count: tables@[k].1 / 8 }),
        decreases tables.len() - j,
    {
        let (addr, size) = tables[j];
        steps.push(InitStep::Table { addr, count: size / 8 });
        proof {
            assert(steps@[nr + j as int] == (InitStep::Table { addr: tables@[j as int].0, count: tables@[j as int].1 / 8 }));
        }
        j = j + 1;
    }
    Ok(steps)
}

/// The __objc_classlist sections of an image as it lies in memory: each
/// one's slid address and its number of class pointers.
pub fn objc_classlists(binary: &MachOBinary) -> (r: Result<Vec<(u64, u64)>, LinkError>)
    ensures
        match parsed_image(binary.data@) {
            Ok(s) => r matches Ok(v) && ({
                let t = named_sections(s.sections, objc_classlist_name(), s.sections.len());
                &&& v@.len() == t.len()
                &&& forall|i: int| 0 <= i < t.len() ==> #[trigger] v@[i] == (wrap64(t[i].0 + binary.slide), t[i].1 / 8)
            }),
            Err(e) => r matches Err(LinkError::Parse(m)) && m@ == e,
        },
{
    match check_entry(binary.data.as_slice()) {
        Err(m) => { return Err(LinkError::Parse(m)); },
        Ok(_) => {},
    }
    let secs = match goblin_sections(binary.data.as_slice()) {
        Ok(v) => v,
        Err(e) => { return Err(LinkError::Parse(e)); },
    };
    let ghost s = parsed_image(binary.data@)->Ok_0;
    proof {
        assert(Seq::new(secs@.len(), |i: int| secs@[i]@) =~= s.sections);
    }
    let lists = find_named_sections(&secs, "__objc_classlist");
    let mut out: Vec<(u64, u64)> = Vec::new();
    let mut i: usize = 0;
    while i < lists.len()
        invariant
            i <= lists@.len(),
            out@.len() == i,
            forall|k: int| 0 <= k < i ==> #[trigger] out@[k] == (wrap64(lists@[k].0 + binary.slide), lists@[k].1 / 8),
        decreases lists.len() - i,
    {
        let (addr, size) = lists[i];
        out.push((add_wrapping(addr, binary.slide), size / 8));
        i = i + 1;
    }
    Ok(out)
}

/// A class's data pointer with the tag bits (the low three) cleared.
pub fn class_data_pointer(bits: u64) -> (r: u64)
    ensures
        r == bits - bits % 8,
{
    let r = bits & !7u64;
    assert(bits & !7u64 == bits - bits % 8) by (bit_vector);
    r
}

/// A method list pointer with the tag bits (the low two) cleared.
pub fn method_list_pointer(raw: u64) -> (r: u64)
    ensures
        r == raw - raw % 4,
{
    let r = raw & !3u64;
    assert(raw & !3u64 == raw - raw % 4) by (bit_vector);
    r
}

/// The shape of a method list: relative or absolute entries, the size of
/// an entry and the number of entries.
#[derive(Clone, Copy, Debug)]
pub struct MethodList {
    pub relative: bool,
    pub entsize: u32,
    pub count: u32,
}

/// Read a method list header (`entsize_and_flags`, `count`): None when it
/// holds more than `max_count` methods or its entry size is 0 or above 64.
pub fn method_list_layout(flags: u32, count: u32, max_count: u32) -> (r: Option<MethodList>)
    ensures
        r is Some <==> (count <= max_count && 0 < flags % 0x10000 <= 64),
        r matches Some(l) ==> l.relative == (flags >= 0x8000_0000) && l.entsize == flags % 0x10000
            && l.count == count,
{
    let relative = (flags & 0x8000_0000) != 0;
    let entsize = flags & 0xFFFF;
    assert(flags & 0xFFFF == flags % 0x10000) by (bit_vector);
    assert(((flags & 0x8000_0000) != 0) == (flags >= 0x8000_0000)) by (bit_vector);
    if count > max_count || entsize == 0 || entsize > 64 {
        None
    } else {
        Some(MethodList { relative, entsize, count })
    }
}

/// The address of entry `index` of a method list whose entries start 8
/// bytes after its header.
pub fn method_entry_address(list: u64, index: u32, entsize: u32) -> (r: u64)
    requires
        entsize <= 64,
    ensures
        r == wrap64(list + 8 + index * entsize),
{
    assert(index as u64 * entsize as u64 <= 0xffff_ffff * 64) by (nonlinear_arith)
        requires entsize <= 64;
    let off: u64 = 8 + index as u64 * entsize as u64;
    add_wrapping(list, off)
}

/// The address a relative method-list field points at: the field's own
/// address plus the signed offset it holds.
pub fn relative_target(field: u64, offset: i32) -> (r: u64)
    ensures
        r == wrap64(field + offset),
{
    add_signed_wrapping(field, offset as i64)
}

// ---- Go's runtime.settls ----

pub open spec fn settls_abi0_name() -> Seq<char> {
    "_runtime.settls.abi0"@
}

pub open spec fn settls_name() -> Seq<char> {
    "_runtime.settls"@
}

/// The address of the first readable symbol named `_runtime.settls.abi0`
/// or `_runtime.settls` with a non-zero value.
pub open spec fn settls_in(syms: Seq<Option<(Seq<char>, u64)>>) -> Option<u64>
    decreases syms.len(),
{
    if syms.len() == 0 {
        None
    } else {
        match syms[0] {
            Some((n, v)) => if (n == settls_abi0_name() || n == settls_name()) && v != 0 { Some(v) }
                else { settls_in(syms.drop_first()) },
            None => settls_in(syms.drop_first()),
        }
    }
}

/// Where Go's `runtime.settls` lies in an image (None when goblin cannot
/// read its symbols or it has none).
pub fn go_settls_address(data: &[u8]) -> (r: Option<u64>)
    ensures
        r == match symbol_list(data@) {
            Ok(syms) => settls_in(syms),
            Err(_) => None,
        },
{
    match check_entry(data) {
        Err(m) => { return None; },
        Ok(_) => {},
    }
    let syms = match goblin_symbols(data) {
        Ok(v) => v,
        Err(_) => { return None; },
    };
    let ghost sv = symbol_list(data@)->Ok_0;
    let a = owned("_runtime.settls.abi0");
    let b = owned("_runtime.settls");
    let mut i: usize = 0;
    proof {
        assert(sv.skip(0) =~= sv);
    }
    while i < syms.len()
        invariant
            i <= syms@.len() == sv.len(),
            forall|j: int| 0 <= j < sv.len() ==> #[trigger] opt_pair_is(syms@[j], sv[j]),
            a@ == settls_abi0_name(),
            b@ == settls_name(),
            symbol_list(data@) == Ok::<Seq<Option<(Seq<char>, u64)>>, Seq<char>>(sv),
            settls_in(sv) == settls_in(sv.skip(i as int)),
        decreases syms.len() - i,
    {
        proof {
            assert(opt_pair_is(syms@[i as int], sv[i as int]));
            assert(sv.skip(i as int)[0] == sv[i as int]);
            assert(sv.skip(i as int).drop_first() =~= sv.skip(i + 1));
        }
        if let Some((name, value)) = &syms[i] {
            if (*name == a || *name == b) && *value != 0 {
                proof {
                    assert(sv[i as int] == Some((name@, *value)));
                    assert(sv.skip(i as int).len() > 0);
                    assert(settls_in(sv.skip(i as int)) == Some(*value));
                }
                return Some(*value);
            }
        }
        i = i + 1;
    }
    proof {
        assert(sv.skip(i as int).len() == 0);
    }
    None
}

/// The code that replaces `runtime.settls`: `lea rsi,[rdi-0x30]; mov
/// edi,0x1001; mov eax,158; syscall; ret` (arch_prctl(ARCH_SET_GS)).
pub fn go_settls_patch() -> (r: [u8; 17])
    ensures
        r@ == seq![0x48u8, 0x8d, 0x77, 0xd0, 0xbf, 0x01, 0x10, 0x00, 0x00, 0xb8, 0x9e, 0x00, 0x00, 0x00, 0x0f, 0x05, 0xc3],
{
    let r: [u8; 17] = [0x48, 0x8d, 0x77, 0xd0, 0xbf, 0x01, 0x10, 0x00, 0x00, 0xb8, 0x9e, 0x00, 0x00, 0x00, 0x0f, 0x05, 0xc3];
    assert(r@ =~= seq![0x48u8, 0x8d, 0x77, 0xd0, 0xbf, 0x01, 0x10, 0x00, 0x00, 0xb8, 0x9e, 0x00, 0x00, 0x00, 0x0f, 0x05, 0xc3]);
    r
}

// ---- Thread-local variables ----

pub open spec fn thread_data_name() -> Seq<char> {
    "__thread_data"@
}

pub open spec fn thread_bss_name() -> Seq<char> {
    "__thread_bss"@
}

/// The (address, size) of the last section of a list, (0, 0) for none.
pub open spec fn last_or_zero(v: Seq<(u64, u64)>) -> (u64, u64) {
    if v.len() == 0 { (0, 0) } else { v.last() }
}

/// The thread-local initial image of an image: the last __thread_data
/// section's address and size, and that size plus the last __thread_bss
/// section's (modulo 2^64); None when both are 0 or goblin cannot parse it.
pub open spec fn spec_tlv_init_image(data: Seq<u8>) -> Option<(u64, u64, u64)> {
    match parsed_image(data) {
        Err(_) => None,
        Ok(s) => {
            let d = last_or_zero(named_sections(s.sections, thread_data_name(), s.sections.len()));
            let b = last_or_zero(named_sections(s.sections, thread_bss_name(), s.sections.len()));
            if d.1 > 0 || b.1 > 0 { Some((d.0, d.1, wrap64(d.1 + b.1))) } else { None }
        },
    }
}

fn last_section(v: &Vec<(u64, u64)>) -> (r: (u64, u64))
    ensures
        r == last_or_zero(v@),
{
    if v.len() == 0 { (0, 0) } else { v[v.len() - 1] }
}

impl MachOBinary {
    /// Where the image's thread-local initial values lie (see `spec_tlv_init_image`).
    pub fn tlv_init_image(&self) -> (r: Option<(u64, u64, u64)>)
        ensures
            r == spec_tlv_init_image(self.data@),
    {
        match check_entry(self.data.as_slice()) {
            Err(m) => { return None; },
            Ok(_) => {},
        }
        let secs = match goblin_sections(self.data.as_slice()) {
            Ok(v) => v,
            Err(_) => { return None; },
        };
        let ghost s = parsed_image(self.data@)->Ok_0;
        proof {
            assert(Seq::new(secs@.len(), |i: int| secs@[i]@) =~= s.sections);
        }
        let d = last_section(&find_named_sections(&secs, "__thread_data"));
        let b = last_section(&find_named_sections(&secs, "__thread_bss"));
        if d.1 > 0 || b.1 > 0 {
            Some((d.0, d.1, add_wrapping(d.1, b.1)))
        } else {
            None
        }
    }
}


// ---- Swift metadata sections ----

/// The __swift5_* sections the Swift runtime is told about, in the order of
/// its registration record: protocols, conformances, types, type
/// references, reflection strings, field metadata, associated types,
/// builtins, captures, multi-payload enums, accessible functions.
pub open spec fn swift_section_names() -> Seq<Seq<char>> {
    seq![
        "__swift5_protos"@, "__swift5_proto"@, "__swift5_types"@, "__swift5_typeref"@, "__swift5_reflstr"@,
        "__swift5_fieldmd"@, "__swift5_assocty"@, "__swift5_builtin"@, "__swift5_capture"@, "__swift5_mpenum"@,
        "__swift_as_entry"@,
    ]
}

/// Where an image's Swift metadata lies.
pub struct SwiftSections {
    /// The first __TEXT segment's address (0 without one).
    pub base_address: u64,
    /// For each name of `swift_section_names`, the (address, size) of the
    /// last section so named, (0, 0) for none.
    pub ranges: Vec<(u64, u64)>,
    /// Whether any of those sections is there.
    pub any: bool,
}

/// The Swift metadata sections of an image; None when goblin cannot read
/// its sections.
pub fn swift_metadata_sections(binary: &MachOBinary) -> (r: Option<SwiftSections>)
    ensures
        match parsed_image(binary.data@) {
            Ok(s) => r matches Some(w) && ({
                &&& w.base_address == match first_text_index(binary.segments@) {
                        Some(i) => binary.segments@[i].vmaddr,
                        None => 0,
                    }
                &&& w.ranges@.len() == swift_section_names().len()
                &&& forall|k: int| 0 <= k < swift_section_names().len() ==> #[trigger] w.ranges@[k]
                        == last_or_zero(named_sections(s.sections, swift_section_names()[k], s.sections.len()))
                &&& w.any == exists|k: int| 0 <= k < swift_section_names().len()
                        && #[trigger] named_sections(s.sections, swift_section_names()[k], s.sections.len()).len() > 0
            }),
            Err(_) => r is None,
        },
{
    match check_entry(binary.data.as_slice()) {
        Err(m) => { return None; },
        Ok(_) => {},
    }
    let secs = match goblin_sections(binary.data.as_slice()) {
        Ok(v) => v,
        Err(_) => { return None; },
    };
    let ghost s = parsed_image(binary.data@)->Ok_0;
    proof {
        assert(Seq::new(secs@.len(), |i: int| secs@[i]@) =~= s.sections);
    }
    let base_address = match find_text_segment(&binary.segments) {
        Some(i) => binary.segments[i].vmaddr,
        None => 0,
    };
    let names: [&str; 11] = [
        "__swift5_protos", "__swift5_proto", "__swift5_types", "__swift5_typeref", "__swift5_reflstr",
        "__swift5_fieldmd", "__swift5_assocty", "__swift5_builtin", "__swift5_capture", "__swift5_mpenum",
        "__swift_as_entry",
    ];
    proof {
        assert(names@.len() == 11);
        assert forall|k: int| 0 <= k < 11 implies #[trigger] names@[k]@ == swift_section_names()[k] by {
            reveal_strlit("__swift5_protos");
            reveal_strlit("__swift5_proto");
            reveal_strlit("__swift5_types");
            reveal_strlit("__swift5_typeref");
            reveal_strlit("__swift5_reflstr");
            reveal_strlit("__swift5_fieldmd");
            reveal_strlit("__swift5_assocty");
            reveal_strlit("__swift5_builtin");
            reveal_strlit("__swift5_capture");
            reveal_strlit("__swift5_mpenum");
            reveal_strlit("__swift_as_entry");
        }
    }
    let mut ranges: Vec<(u64, u64)> = Vec::new();
    let mut any = false;
    let mut k: usize = 0;
    while k < 11
        invariant
            k <= 11,
            names@.len() == 11,
            forall|j: int| 0 <= j < 11 ==> #[trigger] names@[j]@ == swift_section_names()[j],
            s.sections == Seq::new(secs@.len(), |i: int| secs@[i]@),
            ranges@.len() == k,
            forall|j: int| 0 <= j < k ==> #[trigger] ranges@[j]
                == last_or_zero(named_sections(s.sections, swift_section_names()[j], s.sections.len())),
            any == exists|j: int| 0 <= j < k
                && #[trigger] named_sections(s.sections, swift_section_names()[j], s.sections.len()).len() > 0,
        decreases 11 - k,
    {
        let found = find_named_sections(&secs, names[k]);
        proof {
            assert(found@ == named_sections(s.sections, swift_section_names()[k as int], s.sections.len()));
        }
        ranges.push(last_section(&found));
        if found.len() > 0 {
            any = true;
        }
        k = k + 1;
    }
    Some(SwiftSections { base_address, ranges, any })
}

} // verus!
