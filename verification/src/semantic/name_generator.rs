use vstd::prelude::*;

use crate::common::symbol_table_generic::SymbolTable;
use crate::util::{append_decimal, append_str, decimal, is_digit, lemma_decimal_digits,
    lemma_decimal_injective, push_char, string_of};

verus! {

/// The shape of the names a generator hands out.
#[derive(Debug, Clone, Copy, PartialEq, Eq, Structural)]
pub enum NameFormat {
    /// `var.{name}.{count}`
    Var,
    /// `tmp.{count}`
    Temp,
    /// `{name}_{count}`
    Label,
    /// `loop.{count}`
    Loop,
    /// `switch.{count}`
    Switch,
}

/// A generator state before any name was made.
pub open spec fn fresh_gen(format: NameFormat) -> GenView {
    GenView { format, counts: Map::new(|k: Seq<char>| true, |k: Seq<char>| 0nat) }
}

/// The name made of `name` and its count in the given format.
pub open spec fn format_name(format: NameFormat, name: Seq<char>, count: nat) -> Seq<char> {
    match format {
        NameFormat::Var => seq!['v', 'a', 'r', '.'] + name + seq!['.'] + decimal(count),
        NameFormat::Temp => seq!['t', 'm', 'p', '.'] + decimal(count),
        NameFormat::Label => name + seq!['_'] + decimal(count),
        NameFormat::Loop => seq!['l', 'o', 'o', 'p', '.'] + decimal(count),
        NameFormat::Switch => seq!['s', 'w', 'i', 't', 'c', 'h', '.'] + decimal(count),
    }
}

/// Whether the names of a format depend on the base name (otherwise only on the count).
pub open spec fn uses_base_name(format: NameFormat) -> bool {
    format is Var || format is Label
}

/// The state of a name generator: its format and, for every base name, how many names were
/// made from it.
pub struct GenView {
    pub format: NameFormat,
    pub counts: Map<Seq<char>, nat>,
}

/// The counter of `name` after one more name was made from it.
pub open spec fn next_count(c: nat) -> nat {
    if c < usize::MAX {
        c + 1
    } else {
        c
    }
}

/// One step of a generator: the name it hands out for `name`, and its state afterwards.
pub open spec fn gen_next(g: GenView, name: Seq<char>) -> (GenView, Seq<char>) {
    (
        GenView { format: g.format, counts: g.counts.insert(name, next_count(g.counts[name])) },
        format_name(g.format, name, g.counts[name]),
    )
}

/// Hands out names that are unique per base name: each base name has its own counter.
pub struct NameGenerator {
    names: SymbolTable<usize>,
    format: NameFormat,
}

impl View for NameGenerator {
    type V = GenView;

    closed spec fn view(&self) -> GenView {
        GenView { format: self.format, counts: Map::new(|k: Seq<char>| true, |k: Seq<char>| self.count(k)) }
    }
}

impl NameGenerator {
    /// How many names were made from `name` so far.
    pub closed spec fn count(&self, name: Seq<char>) -> nat {
        if self.names@.contains_key(name) {
            self.names@[name] as nat
        } else {
            0
        }
    }

    /// The format of the names this generator hands out.
    pub closed spec fn format(&self) -> NameFormat {
        self.format
    }

    /// A generator that has handed out no name yet.
    pub fn new(format: NameFormat) -> (g: Self)
        ensures
            g.format() == format,
            forall|n: Seq<char>| g.count(n) == 0,
            g@ == fresh_gen(format),
    {
        let g = NameGenerator { names: SymbolTable::new(), format };
        assert(g@.counts =~= fresh_gen(format).counts);
        g
    }

    /// Hands out the name for `name` with its current count, then counts it. The counter of a
    /// base name stops at `usize::MAX`.
    pub fn make_unique_name(&mut self, name: &str) -> (unique: String)
        ensures
            unique@ == format_name(old(self).format(), name@, old(self).count(name@)),
            final(self).format() == old(self).format(),
            final(self).count(name@) == (if old(self).count(name@) < usize::MAX {
                old(self).count(name@) + 1
            } else {
                old(self).count(name@)
            }),
            forall|n: Seq<char>| n != name@ ==> final(self).count(n) == old(self).count(n),
            final(self)@ == gen_next(old(self)@, name@).0,
            unique@ == gen_next(old(self)@, name@).1,
    {
        let cnt: usize = match self.names.get_entry(name) {
            Some(c) => *c,
            None => 0,
        };
        let unique = format_with(self.format, name, cnt);
        let next: usize = if cnt < usize::MAX { cnt + 1 } else { cnt };
        let _ = self.names.insert(name, next);
        assert(self@.counts =~= gen_next(old(self)@, name@).0.counts);
        unique
    }
}

fn format_with(format: NameFormat, name: &str, count: usize) -> (r: String)
    ensures
        r@ == format_name(format, name@, count as nat),
{
    match format {
        NameFormat::Var => {
            let mut s = string_of("var.");
            proof {
                reveal_strlit("var.");
            }
            append_str(&mut s, name);
            push_char(&mut s, '.');
            append_decimal(&mut s, count as u64);
            assert(s@ =~= format_name(format, name@, count as nat));
            s
        },
        NameFormat::Temp => {
            let mut s = string_of("tmp.");
            proof {
                reveal_strlit("tmp.");
            }
            append_decimal(&mut s, count as u64);
            assert(s@ =~= format_name(format, name@, count as nat));
            s
        },
        NameFormat::Label => {
            let mut s = string_of(name);
            push_char(&mut s, '_');
            append_decimal(&mut s, count as u64);
            assert(s@ =~= format_name(format, name@, count as nat));
            s
        },
        NameFormat::Loop => {
            let mut s = string_of("loop.");
            proof {
                reveal_strlit("loop.");
            }
            append_decimal(&mut s, count as u64);
            assert(s@ =~= format_name(format, name@, count as nat));
            s
        },
        NameFormat::Switch => {
            let mut s = string_of("switch.");
            proof {
                reveal_strlit("switch.");
            }
            append_decimal(&mut s, count as u64);
            assert(s@ =~= format_name(format, name@, count as nat));
            s
        },
    }
}

/// Splitting `prefix + [sep] + digits` at its last separator gives back the parts, when the
/// separator is not a digit.
proof fn lemma_split_at_separator(
    p1: Seq<char>,
    d1: Seq<char>,
    p2: Seq<char>,
    d2: Seq<char>,
    sep: char,
)
    requires
        !is_digit(sep),
        forall|i: int| 0 <= i < d1.len() ==> is_digit(#[trigger] d1[i]),
        forall|i: int| 0 <= i < d2.len() ==> is_digit(#[trigger] d2[i]),
        p1 + seq![sep] + d1 == p2 + seq![sep] + d2,
    ensures
        p1 == p2,
        d1 == d2,
{
    let s1 = p1 + seq![sep] + d1;
    let s2 = p2 + seq![sep] + d2;
    assert(s1.len() == p1.len() + 1 + d1.len());
    assert(s2.len() == p2.len() + 1 + d2.len());
    if p1.len() < p2.len() {
        let k = p2.len() as int;
        assert(s2[k] == sep);
        assert(s1[k] == d1[k - p1.len() - 1]);
        assert(is_digit(d1[k - p1.len() - 1]));
        assert(false);
    } else if p2.len() < p1.len() {
        let k = p1.len() as int;
        assert(s1[k] == sep);
        assert(s2[k] == d2[k - p2.len() - 1]);
        assert(is_digit(d2[k - p2.len() - 1]));
        assert(false);
    }
    assert(p1 =~= s1.subrange(0, p1.len() as int));
    assert(p2 =~= s2.subrange(0, p2.len() as int));
    assert(d1 =~= s1.subrange(p1.len() as int + 1, s1.len() as int));
    assert(d2 =~= s2.subrange(p2.len() as int + 1, s2.len() as int));
}

/// Law: names are unique. Two names of one format are equal only when they come from the same
/// count and, for the formats that use it, the same base name.
pub proof fn law_format_name_injective(
    format: NameFormat,
    name1: Seq<char>,
    count1: nat,
    name2: Seq<char>,
    count2: nat,
)
    requires
        format_name(format, name1, count1) == format_name(format, name2, count2),
    ensures
        count1 == count2,
        uses_base_name(format) ==> name1 == name2,
{
    lemma_decimal_digits(count1);
    lemma_decimal_digits(count2);
    let d1 = decimal(count1);
    let d2 = decimal(count2);
    match format {
        NameFormat::Var => {
            let v = seq!['v', 'a', 'r', '.'];
            assert(format_name(format, name1, count1) =~= (v + name1) + seq!['.'] + d1);
            assert(format_name(format, name2, count2) =~= (v + name2) + seq!['.'] + d2);
            lemma_split_at_separator(v + name1, d1, v + name2, d2, '.');
            assert(name1 =~= (v + name1).subrange(4, (v + name1).len() as int));
            assert(name2 =~= (v + name2).subrange(4, (v + name2).len() as int));
        },
        NameFormat::Label => {
            lemma_split_at_separator(name1, d1, name2, d2, '_');
        },
        NameFormat::Temp => {
            let p = seq!['t', 'm', 'p'];
            assert(format_name(format, name1, count1) =~= p + seq!['.'] + d1);
            assert(format_name(format, name2, count2) =~= p + seq!['.'] + d2);
            lemma_split_at_separator(p, d1, p, d2, '.');
        },
        NameFormat::Loop => {
            let p = seq!['l', 'o', 'o', 'p'];
            assert(format_name(format, name1, count1) =~= p + seq!['.'] + d1);
            assert(format_name(format, name2, count2) =~= p + seq!['.'] + d2);
            lemma_split_at_separator(p, d1, p, d2, '.');
        },
        NameFormat::Switch => {
            let p = seq!['s', 'w', 'i', 't', 'c', 'h'];
            assert(format_name(format, name1, count1) =~= p + seq!['.'] + d1);
            assert(format_name(format, name2, count2) =~= p + seq!['.'] + d2);
            lemma_split_at_separator(p, d1, p, d2, '.');
        },
    }
    lemma_decimal_injective(count1, count2);
}

/// Law: a generator never hands out the same name twice. Of two successive calls (the second
/// made on the generator the first one left), the names differ, as long as the counter of the
/// first base name has not reached its limit. For the formats that leave the base name out
/// (`tmp.`, `loop.`, `switch.`) this holds when both calls use the same base name: each base
/// name has a counter of its own.
pub proof fn law_successive_names_differ(
    g0: NameGenerator,
    name1: Seq<char>,
    g1: NameGenerator,
    name2: Seq<char>,
)
    requires
        g0.count(name1) < usize::MAX,
        uses_base_name(g0.format()) || name1 == name2,
        g1.format() == g0.format(),
        g1.count(name1) == g0.count(name1) + 1,
        forall|n: Seq<char>| n != name1 ==> g1.count(n) == g0.count(n),
    ensures
        format_name(g0.format(), name1, g0.count(name1)) != format_name(
            g1.format(),
            name2,
            g1.count(name2),
        ),
{
    if format_name(g0.format(), name1, g0.count(name1)) == format_name(
        g1.format(),
        name2,
        g1.count(name2),
    ) {
        law_format_name_injective(g0.format(), name1, g0.count(name1), name2, g1.count(name2));
        if name2 == name1 {
            assert(false);
        } else {
            assert(!uses_base_name(g0.format()));
        }
    }
}

/// A generator of unique variable names (`var.{name}.{count}`).
pub fn make_var_name_generator() -> (g: NameGenerator)
    ensures
        g.format() == NameFormat::Var,
        forall|n: Seq<char>| g.count(n) == 0,
        g@ == fresh_gen(NameFormat::Var),
{
    NameGenerator::new(NameFormat::Var)
}

/// A generator of temporary variable names (`tmp.{count}`).
pub fn make_temp_var_name_generator() -> (g: NameGenerator)
    ensures
        g.format() == NameFormat::Temp,
        forall|n: Seq<char>| g.count(n) == 0,
        g@ == fresh_gen(NameFormat::Temp),
{
    NameGenerator::new(NameFormat::Temp)
}

/// A generator of label names (`{name}_{count}`).
pub fn make_label_name_generator() -> (g: NameGenerator)
    ensures
        g.format() == NameFormat::Label,
        forall|n: Seq<char>| g.count(n) == 0,
        g@ == fresh_gen(NameFormat::Label),
{
    NameGenerator::new(NameFormat::Label)
}

/// A generator of loop ids (`loop.{count}`).
pub fn make_loop_id_generator() -> (g: NameGenerator)
    ensures
        g.format() == NameFormat::Loop,
        forall|n: Seq<char>| g.count(n) == 0,
        g@ == fresh_gen(NameFormat::Loop),
{
    NameGenerator::new(NameFormat::Loop)
}

/// A generator of switch ids (`switch.{count}`).
pub fn make_switch_id_generator() -> (g: NameGenerator)
    ensures
        g.format() == NameFormat::Switch,
        forall|n: Seq<char>| g.count(n) == 0,
        g@ == fresh_gen(NameFormat::Switch),
{
    NameGenerator::new(NameFormat::Switch)
}

} // verus!
