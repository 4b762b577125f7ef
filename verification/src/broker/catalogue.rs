//! The interface catalogue: resolving a manifest's rights tokens to an
//! object-rights mask.
//!
//! A manifest requests a peer capability in terms of named rights
//! classes; the broker mints the connection's object-rights mask by
//! resolving those names against the provider interface's rights-class
//! table. The catalogue is read from a declarative file of `[interface]`
//! blocks, each naming an interface and listing its rights classes as the
//! method ordinals they cover.

use vstd::prelude::*;
use crate::text::{
    content, line_content, lines, lines_of, parse_decimal, parse_unsigned, slice_of, split_all,
    split_on, split_once, split_once_at, string_of, trim, trimmed, views,
};
use crate::broker::manifest::strs;

verus! {

/// The value `k` is paired with at its first occurrence in `es`.
pub open spec fn lookup<C>(es: Seq<(Seq<char>, C)>, k: Seq<char>) -> Option<C>
    decreases es.len(),
{
    if es.len() == 0 {
        None
    } else if es[0].0 == k {
        Some(es[0].1)
    } else {
        lookup(es.drop_first(), k)
    }
}

/// A rights-class table: each class name with its ordinal mask.
pub open spec fn class_table(cs: Seq<(String, u32)>) -> Seq<(Seq<char>, u32)> {
    cs.map_values(|c: (String, u32)| (c.0@, c.1))
}

/// Per-interface rights-class tables, by interface name.
#[derive(Debug, Clone)]
pub struct InterfaceCatalogue {
    classes: Vec<(String, Vec<(String, u32)>)>,
}

impl InterfaceCatalogue {
    /// The tables in the order they were entered.
    pub closed spec fn entries(&self) -> Seq<(Seq<char>, Seq<(Seq<char>, u32)>)> {
        self.classes@.map_values(|e: (String, Vec<(String, u32)>)| (e.0@, class_table(e.1@)))
    }
}

impl View for InterfaceCatalogue {
    type V = Map<Seq<char>, Seq<(Seq<char>, u32)>>;

    /// Interface name to its rights-class table.
    open spec fn view(&self) -> Map<Seq<char>, Seq<(Seq<char>, u32)>> {
        Map::new(|k: Seq<char>| lookup(self.entries(), k) is Some, |k: Seq<char>| lookup(self.entries(), k)->0)
    }
}

/// Why a manifest's rights tokens could not be resolved.
#[derive(Debug, Clone, PartialEq, Eq)]
pub enum CatalogueError {
    /// No interface of this name is in the catalogue.
    UnknownInterface(String),
    /// The interface has no rights class of this name.
    UnknownRightsClass { interface: String, class: String },
}

/// The mathematical form of a [`CatalogueError`].
pub enum CatalogueFault {
    UnknownInterface(Seq<char>),
    UnknownRightsClass { interface: Seq<char>, class: Seq<char> },
}

impl View for CatalogueError {
    type V = CatalogueFault;

    open spec fn view(&self) -> CatalogueFault {
        match self {
            CatalogueError::UnknownInterface(n) => CatalogueFault::UnknownInterface(n@),
            CatalogueError::UnknownRightsClass { interface, class } => {
                CatalogueFault::UnknownRightsClass { interface: interface@, class: class@ }
            },
        }
    }
}

/// A catalogue file that could not be parsed. Every variant names the line.
#[derive(Debug, Clone, Copy, PartialEq, Eq, Structural)]
pub enum CatalogueSyntaxError {
    /// A line that is neither blank, a comment, a section, nor `key = value`.
    Syntax { line: usize },
    /// A section header other than `[interface]`.
    UnknownSection { line: usize },
    /// A `key = value` line outside any `[interface]` block, or an
    /// `[interface]` block that never set its `name`.
    Structure { line: usize },
    /// A rights class whose value is not method ordinals in the range 0–31.
    BadRights { line: usize },
    /// An interface, or a rights class within one, declared twice.
    Duplicate { line: usize },
}

/// The union of the masks of the first `n` tokens' classes, or the first
/// token that names no class.
pub open spec fn union_of(
    interface: Seq<char>,
    classes: Seq<(Seq<char>, u32)>,
    tokens: Seq<Seq<char>>,
    n: int,
) -> Result<u32, CatalogueFault>
    decreases n,
{
    if n <= 0 {
        Ok(0)
    } else {
        match union_of(interface, classes, tokens, n - 1) {
            Err(e) => Err(e),
            Ok(m) => match lookup(classes, tokens[n - 1]) {
                None => Err(CatalogueFault::UnknownRightsClass { interface, class: tokens[n - 1] }),
                Some(c) => Ok(m | c),
            },
        }
    }
}

/// Resolving `tokens` against interface `name` of the table `cat`.
pub open spec fn resolution(
    cat: Map<Seq<char>, Seq<(Seq<char>, u32)>>,
    name: Seq<char>,
    tokens: Seq<Seq<char>>,
) -> Result<u32, CatalogueFault> {
    if !cat.contains_key(name) {
        Err(CatalogueFault::UnknownInterface(name))
    } else {
        union_of(name, cat[name], tokens, tokens.len() as int)
    }
}

/// The mask of the ordinals in the first `n` pieces, or `None` when one is
/// not an ordinal in 0–31.
pub open spec fn ordinal_mask(pieces: Seq<Seq<char>>, n: int) -> Option<u32>
    decreases n,
{
    if n <= 0 {
        Some(0)
    } else {
        match ordinal_mask(pieces, n - 1) {
            None => None,
            Some(m) => match parse_unsigned(trimmed(pieces[n - 1]), u32::MAX as nat) {
                None => None,
                Some(o) => if o >= 32 {
                    None
                } else {
                    Some(m | (1u32 << (o as u32)))
                },
            },
        }
    }
}

/// A rights class's value: a comma-separated list of method ordinals
/// resolved to their bitmask; the empty value is the empty mask.
pub open spec fn ordinals_value(value: Seq<char>) -> Option<u32> {
    if value.len() == 0 {
        Some(0)
    } else {
        let ps = split_on(value, ',');
        ordinal_mask(ps, ps.len() as int)
    }
}

/// One `[interface]` block as read so far.
pub struct BlockView {
    pub line: usize,
    pub name: Option<Seq<char>>,
    pub classes: Seq<(Seq<char>, u32)>,
}

/// The catalogue's tables, and the block being read.
pub type CatState = (Seq<(Seq<char>, Seq<(Seq<char>, u32)>)>, Option<BlockView>);

/// Recording a finished block.
pub open spec fn committed(es: Seq<(Seq<char>, Seq<(Seq<char>, u32)>)>, b: BlockView) -> Result<
    Seq<(Seq<char>, Seq<(Seq<char>, u32)>)>,
    CatalogueSyntaxError,
> {
    match b.name {
        None => Err(CatalogueSyntaxError::Structure { line: b.line }),
        Some(n) => if lookup(es, n) is Some {
            Err(CatalogueSyntaxError::Duplicate { line: b.line })
        } else {
            Ok(es.push((n, b.classes)))
        },
    }
}

/// Reading one line of a catalogue file.
pub open spec fn read_catalogue_line(st: CatState, raw: Seq<char>, line: usize) -> Result<
    CatState,
    CatalogueSyntaxError,
> {
    let s = content(raw);
    if s.len() == 0 {
        Ok(st)
    } else if s[0] == '[' {
        if s.len() < 2 || s.last() != ']' {
            Err(CatalogueSyntaxError::Syntax { line })
        } else if trimmed(s.subrange(1, s.len() - 1)) != "interface"@ {
            Err(CatalogueSyntaxError::UnknownSection { line })
        } else {
            let fresh = BlockView { line, name: None, classes: Seq::empty() };
            match st.1 {
                None => Ok((st.0, Some(fresh))),
                Some(b) => match committed(st.0, b) {
                    Err(e) => Err(e),
                    Ok(es) => Ok((es, Some(fresh))),
                },
            }
        }
    } else {
        match split_once(s, '=') {
            None => Err(CatalogueSyntaxError::Syntax { line }),
            Some((k, v)) => {
                let key = trimmed(k);
                let value = trimmed(v);
                if key.len() == 0 {
                    Err(CatalogueSyntaxError::Syntax { line })
                } else {
                    match st.1 {
                        None => Err(CatalogueSyntaxError::Structure { line }),
                        Some(b) => if key == "name"@ {
                            if b.name is Some {
                                Err(CatalogueSyntaxError::Duplicate { line })
                            } else {
                                Ok((st.0, Some(BlockView { name: Some(value), ..b })))
                            }
                        } else if lookup(b.classes, key) is Some {
                            Err(CatalogueSyntaxError::Duplicate { line })
                        } else {
                            match ordinals_value(value) {
                                None => Err(CatalogueSyntaxError::BadRights { line }),
                                Some(m) => Ok(
                                    (st.0, Some(BlockView { classes: b.classes.push((key, m)), ..b })),
                                ),
                            }
                        },
                    }
                }
            },
        }
    }
}

/// The state after reading the first `n` lines.
pub open spec fn read_catalogue(ls: Seq<Seq<char>>, n: int) -> Result<CatState, CatalogueSyntaxError>
    decreases n,
{
    if n <= 0 {
        Ok((Seq::empty(), None))
    } else {
        match read_catalogue(ls, n - 1) {
            Err(e) => Err(e),
            Ok(st) => read_catalogue_line(st, ls[n - 1], n as usize),
        }
    }
}

/// What parsing `text` as a catalogue yields: its tables in order.
pub open spec fn parse_catalogue(text: Seq<char>) -> Result<
    Seq<(Seq<char>, Seq<(Seq<char>, u32)>)>,
    CatalogueSyntaxError,
> {
    let ls = lines_of(text);
    match read_catalogue(ls, ls.len() as int) {
        Err(e) => Err(e),
        Ok((es, None)) => Ok(es),
        Ok((es, Some(b))) => committed(es, b),
    }
}

/// The map a sequence of tables stands for.
pub open spec fn table_map(es: Seq<(Seq<char>, Seq<(Seq<char>, u32)>)>) -> Map<
    Seq<char>,
    Seq<(Seq<char>, u32)>,
> {
    Map::new(|k: Seq<char>| lookup(es, k) is Some, |k: Seq<char>| lookup(es, k)->0)
}

// ---- lookups -------------------------------------------------------------------

pub proof fn lemma_lookup_at<C>(es: Seq<(Seq<char>, C)>, k: Seq<char>, i: int)
    requires
        0 <= i <= es.len(),
        forall|j: int| 0 <= j < i ==> (#[trigger] es[j]).0 != k,
        i == es.len() || es[i].0 == k,
    ensures
        lookup(es, k) == (if i < es.len() {
            Some(es[i].1)
        } else {
            None::<C>
        }),
    decreases es.len(),
{
    if es.len() > 0 && i > 0 {
        let t = es.drop_first();
        assert forall|j: int| 0 <= j < i - 1 implies (#[trigger] t[j]).0 != k by {
            assert(t[j] == es[j + 1]);
        }
        if i < es.len() {
            assert(t[i - 1] == es[i]);
        }
        lemma_lookup_at(t, k, i - 1);
    }
}

proof fn lemma_lookup_push<C>(es: Seq<(Seq<char>, C)>, x: (Seq<char>, C), k: Seq<char>)
    ensures
        lookup(es.push(x), k) == (if lookup(es, k) is Some {
            lookup(es, k)
        } else if x.0 == k {
            Some(x.1)
        } else {
            None::<C>
        }),
    decreases es.len(),
{
    if es.len() > 0 {
        assert(es.push(x).drop_first() =~= es.drop_first().push(x));
        assert(es.push(x)[0] == es[0]);
        lemma_lookup_push(es.drop_first(), x, k);
    } else {
        assert(es.push(x).drop_first() =~= Seq::<(Seq<char>, C)>::empty());
        assert(es.push(x)[0] == x);
        assert(lookup(Seq::<(Seq<char>, C)>::empty(), k) is None);
        assert(lookup(es, k) is None);
    }
}

proof fn lemma_lookup_update<C>(es: Seq<(Seq<char>, C)>, i: int, x: (Seq<char>, C), k: Seq<char>)
    requires
        0 <= i < es.len(),
        es[i].0 == x.0,
        x.0 != k,
    ensures
        lookup(es.update(i, x), k) == lookup(es, k),
    decreases es.len(),
{
    if i > 0 {
        assert(es.update(i, x).drop_first() =~= es.drop_first().update(i - 1, x));
        lemma_lookup_update(es.drop_first(), i - 1, x, k);
    } else {
        assert(es.update(i, x).drop_first() =~= es.drop_first());
    }
}

/// The first index in `cs` whose name is `k`, or its length.
fn find_class(cs: &Vec<(String, u32)>, k: &[char]) -> (i: usize)
    ensures
        i <= cs@.len(),
        forall|j: int| 0 <= j < i ==> (#[trigger] cs@[j]).0@ != k@,
        i == cs@.len() || cs@[i as int].0@ == k@,
        lookup(class_table(cs@), k@) == (if i < cs@.len() {
            Some(cs@[i as int].1)
        } else {
            None::<u32>
        }),
{
    let mut i: usize = 0;
    while i < cs.len() && !crate::text::eq_str(k, cs[i].0.as_str())
        invariant
            i <= cs@.len(),
            forall|j: int| 0 <= j < i ==> (#[trigger] cs@[j]).0@ != k@,
        decreases cs@.len() - i,
    {
        i = i + 1;
    }
    proof {
        let t = class_table(cs@);
        assert forall|j: int| 0 <= j < i implies (#[trigger] t[j]).0 != k@ by {
            assert(t[j].0 == cs@[j].0@);
        }
        if i < cs@.len() {
            assert(t[i as int] == (cs@[i as int].0@, cs@[i as int].1));
        }
        lemma_lookup_at(t, k@, i as int);
    }
    i
}

impl InterfaceCatalogue {
    /// An empty catalogue.
    pub fn new() -> (c: InterfaceCatalogue)
        ensures
            c@ == Map::<Seq<char>, Seq<(Seq<char>, u32)>>::empty(),
            c.entries() == Seq::<(Seq<char>, Seq<(Seq<char>, u32)>)>::empty(),
    {
        let c = InterfaceCatalogue { classes: Vec::new() };
        assert(c.entries() =~= Seq::<(Seq<char>, Seq<(Seq<char>, u32)>)>::empty());
        assert(c@ =~= Map::<Seq<char>, Seq<(Seq<char>, u32)>>::empty());
        c
    }

    /// The view is the lookup of the entries.
    pub proof fn lemma_view(&self)
        ensures
            self@ == table_map(self.entries()),
    {
    }

    /// The first entry named `k`, or the number of entries.
    fn find(&self, k: &[char]) -> (i: usize)
        ensures
            i <= self.entries().len(),
            forall|j: int| 0 <= j < i ==> (#[trigger] self.entries()[j]).0 != k@,
            i == self.entries().len() || self.entries()[i as int].0 == k@,
            lookup(self.entries(), k@) == (if i < self.entries().len() {
                Some(self.entries()[i as int].1)
            } else {
                None::<Seq<(Seq<char>, u32)>>
            }),
    {
        let mut i: usize = 0;
        while i < self.classes.len() && !crate::text::eq_str(k, self.classes[i].0.as_str())
            invariant
                i <= self.classes@.len(),
                forall|j: int| 0 <= j < i ==> (#[trigger] self.entries()[j]).0 != k@,
            decreases self.classes@.len() - i,
        {
            assert(self.entries()[i as int].0 == self.classes@[i as int].0@);
            i = i + 1;
        }
        if i < self.classes.len() {
            assert(self.entries()[i as int].0 == self.classes@[i as int].0@);
        }
        proof {
            lemma_lookup_at(self.entries(), k@, i as int);
        }
        i
    }

    /// Register interface `name`'s rights classes. A re-registration
    /// replaces the entry.
    pub fn register(&mut self, name: &str, classes: &[(&str, u32)])
        ensures
            final(self)@ == old(self)@.insert(
                name@,
                classes@.map_values(|c: (&str, u32)| (c.0@, c.1)),
            ),
    {
        let ghost cv = classes@.map_values(|c: (&str, u32)| (c.0@, c.1));
        let mut table: Vec<(String, u32)> = Vec::new();
        let mut j: usize = 0;
        while j < classes.len()
            invariant
                j <= classes@.len(),
                class_table(table@) == cv.subrange(0, j as int),
                cv == classes@.map_values(|c: (&str, u32)| (c.0@, c.1)),
            decreases classes@.len() - j,
        {
            let (c, m) = classes[j];
            assert(cv[j as int] == (c@, m));
            let owned = c.to_owned();
            let ghost before = table@;
            table.push((owned, m));
            assert(class_table(table@) =~= class_table(before).push((c@, m)));
            j = j + 1;
            assert(class_table(table@) =~= cv.subrange(0, j as int));
        }
        assert(cv.subrange(0, classes@.len() as int) =~= cv);
        let key = crate::text::chars_of(name);
        let i = self.find(key.as_slice());
        let ghost old_es = self.entries();
        let entry = (name.to_owned(), table);
        let ghost x = (name@, cv);
        if i < self.classes.len() {
            self.classes.remove(i);
            self.classes.insert(i, entry);
            proof {
            assert(self.entries() =~= old_es.update(i as int, x));
            assert forall|k: Seq<char>| k != name@ implies lookup(self.entries(), k) == lookup(
                old_es,
                k,
            ) by {
                lemma_lookup_update(old_es, i as int, x, k);
            }
            assert forall|j2: int| 0 <= j2 < i implies (#[trigger] self.entries()[j2]).0
                != name@ by {
                assert(self.entries()[j2] == old_es[j2]);
            }
            lemma_lookup_at(self.entries(), name@, i as int);
            }
        } else {
            self.classes.push(entry);
            proof {
            assert(self.entries() =~= old_es.push(x));
            assert forall|k: Seq<char>| true implies lookup(self.entries(), k) == (if lookup(
                old_es,
                k,
            ) is Some {
                lookup(old_es, k)
            } else if name@ == k {
                Some(cv)
            } else {
                None
            }) by {
                lemma_lookup_push(old_es, x, k);
            }
            }
        }
        assert(final(self)@ =~= old(self)@.insert(name@, cv));
    }

    /// Resolve `tokens` against interface `name` to an object-rights
    /// mask: the union of the named classes' masks. An empty `tokens`
    /// resolves to an empty mask.
    pub fn resolve(&self, name: &str, tokens: &[String]) -> (r: Result<u32, CatalogueError>)
        ensures
            match resolution(self@, name@, strs(tokens@)) {
                Ok(m) => r == Ok::<u32, CatalogueError>(m),
                Err(e) => r matches Err(x) && x@ == e,
            },
    {
        let key = crate::text::chars_of(name);
        let i = self.find(key.as_slice());
        if i == self.classes.len() {
            return Err(CatalogueError::UnknownInterface(name.to_owned()));
        }
        let classes = &self.classes[i].1;
        assert(self.entries()[i as int].1 == class_table(classes@));
        let ghost ts = strs(tokens@);
        let mut mask: u32 = 0;
        let mut n: usize = 0;
        while n < tokens.len()
            invariant
                n <= tokens@.len(),
                ts == strs(tokens@),
                self@.contains_key(name@),
                self@[name@] == class_table(classes@),
                union_of(name@, class_table(classes@), ts, n as int) == Ok::<u32, CatalogueFault>(
                    mask,
                ),
            decreases tokens@.len() - n,
        {
            let tk = crate::text::chars_of(tokens[n].as_str());
            assert(ts[n as int] == tokens@[n as int]@);
            let c = find_class(classes, tk.as_slice());
            if c == classes.len() {
                proof {
                    lemma_union_err_persists(
                        name@,
                        class_table(classes@),
                        ts,
                        n + 1,
                        ts.len() as int,
                    );
                }
                return Err(
                    CatalogueError::UnknownRightsClass {
                        interface: name.to_owned(),
                        class: tokens[n].clone(),
                    },
                );
            }
            mask = mask | classes[c].1;
            n = n + 1;
        }
        Ok(mask)
    }
}

proof fn lemma_union_err_persists(
    interface: Seq<char>,
    classes: Seq<(Seq<char>, u32)>,
    tokens: Seq<Seq<char>>,
    k: int,
    n: int,
)
    requires
        0 < k <= n,
        union_of(interface, classes, tokens, k) is Err,
    ensures
        union_of(interface, classes, tokens, n) == union_of(interface, classes, tokens, k),
    decreases n - k,
{
    if k < n {
        lemma_union_err_persists(interface, classes, tokens, k, n - 1);
    }
}

// ---- the catalogue file -------------------------------------------------------

proof fn lemma_ordinal_mask_none_persists(pieces: Seq<Seq<char>>, k: int, n: int)
    requires
        0 < k <= n,
        ordinal_mask(pieces, k) is None,
    ensures
        ordinal_mask(pieces, n) is None,
    decreases n - k,
{
    if k < n {
        lemma_ordinal_mask_none_persists(pieces, k, n - 1);
    }
}

/// Resolve a rights class's value, a comma-separated list of method
/// ordinals, to the bitmask of those ordinals.
fn parse_ordinals(value: &[char], line: usize) -> (r: Result<u32, CatalogueSyntaxError>)
    ensures
        match ordinals_value(value@) {
            Some(m) => r == Ok::<u32, CatalogueSyntaxError>(m),
            None => r == Err::<u32, CatalogueSyntaxError>(CatalogueSyntaxError::BadRights { line }),
        },
{
    let mut mask: u32 = 0;
    if value.len() == 0 {
        return Ok(mask);
    }
    let pieces = split_all(value, ',');
    let ghost ps = split_on(value@, ',');
    let mut n: usize = 0;
    while n < pieces.len()
        invariant
            n <= pieces@.len(),
            views(pieces@) == ps,
            ps == split_on(value@, ','),
            value@.len() > 0,
            ordinal_mask(ps, n as int) == Some(mask),
        decreases pieces@.len() - n,
    {
        assert(ps[n as int] == pieces@[n as int]@);
        let t = trim(pieces[n].as_slice());
        let ordinal = match parse_decimal(t.as_slice(), 0xFFFF_FFFF) {
            Some(o) => o,
            None => {
                proof {
                    lemma_ordinal_mask_none_persists(ps, n + 1, ps.len() as int);
                }
                return Err(CatalogueSyntaxError::BadRights { line });
            },
        };
        if ordinal >= 32 {
            proof {
                lemma_ordinal_mask_none_persists(ps, n + 1, ps.len() as int);
            }
            return Err(CatalogueSyntaxError::BadRights { line });
        }
        mask = mask | (1u32 << (ordinal as u32));
        n = n + 1;
    }
    Ok(mask)
}

/// One `[interface]` block, accumulated as the catalogue file is parsed.
struct Block {
    /// The line the `[interface]` header was on, for error reports.
    line: usize,
    name: Option<String>,
    classes: Vec<(String, u32)>,
}

impl View for Block {
    type V = BlockView;

    closed spec fn view(&self) -> BlockView {
        BlockView {
            line: self.line,
            name: crate::broker::manifest::opt_str(self.name),
            classes: class_table(self.classes@),
        }
    }
}

impl Block {
    fn new(line: usize) -> (b: Block)
        ensures
            b@ == (BlockView { line, name: None, classes: Seq::empty() }),
    {
        let b = Block { line, name: None, classes: Vec::new() };
        assert(b@.classes =~= Seq::<(Seq<char>, u32)>::empty());
        b
    }

    /// Set the block's interface name; it may be set only once.
    fn set_name(&mut self, value: &[char], line: usize) -> (r: Result<(), CatalogueSyntaxError>)
        ensures
            old(self)@.name is Some ==> r == Err::<(), CatalogueSyntaxError>(
                CatalogueSyntaxError::Duplicate { line },
            ),
            old(self)@.name is None ==> r is Ok && final(self)@ == (BlockView {
                name: Some(value@),
                ..old(self)@
            }),
    {
        if self.name.is_some() {
            return Err(CatalogueSyntaxError::Duplicate { line });
        }
        self.name = Some(string_of(value));
        Ok(())
    }

    /// Add one rights class, its method-ordinal list resolved to a mask.
    fn add_class(&mut self, class: &[char], value: &[char], line: usize) -> (r: Result<
        (),
        CatalogueSyntaxError,
    >)
        ensures
            lookup(old(self)@.classes, class@) is Some ==> r == Err::<(), CatalogueSyntaxError>(
                CatalogueSyntaxError::Duplicate { line },
            ),
            lookup(old(self)@.classes, class@) is None ==> match ordinals_value(value@) {
                None => r == Err::<(), CatalogueSyntaxError>(
                    CatalogueSyntaxError::BadRights { line },
                ),
                Some(m) => r is Ok && final(self)@ == (BlockView {
                    classes: old(self)@.classes.push((class@, m)),
                    ..old(self)@
                }),
            },
    {
        let i = find_class(&self.classes, class);
        if i < self.classes.len() {
            return Err(CatalogueSyntaxError::Duplicate { line });
        }
        let m = parse_ordinals(value, line)?;
        self.classes.push((string_of(class), m));
        assert(self@.classes =~= old(self)@.classes.push((class@, m)));
        Ok(())
    }

    /// Record the finished block in `catalogue`.
    fn commit(self, catalogue: &mut InterfaceCatalogue) -> (r: Result<(), CatalogueSyntaxError>)
        ensures
            match committed(old(catalogue).entries(), self@) {
                Ok(es) => r is Ok && final(catalogue).entries() == es,
                Err(e) => r == Err::<(), CatalogueSyntaxError>(e),
            },
    {
        let ghost bv = self@;
        let name = match self.name {
            Some(n) => n,
            None => return Err(CatalogueSyntaxError::Structure { line: self.line }),
        };
        let key = crate::text::chars_of(name.as_str());
        let i = catalogue.find(key.as_slice());
        if i < catalogue.classes.len() {
            return Err(CatalogueSyntaxError::Duplicate { line: self.line });
        }
        let ghost before = catalogue.entries();
        catalogue.classes.push((name, self.classes));
        assert(catalogue.entries() =~= before.push((bv.name->0, bv.classes)));
        Ok(())
    }
}

proof fn lemma_read_catalogue_err_persists(ls: Seq<Seq<char>>, k: int, n: int)
    requires
        0 < k <= n,
        read_catalogue(ls, k) is Err,
    ensures
        read_catalogue(ls, n) == read_catalogue(ls, k),
    decreases n - k,
{
    if k < n {
        lemma_read_catalogue_err_persists(ls, k, n - 1);
    }
}

impl InterfaceCatalogue {
    /// Parse an interface catalogue from its text form: `#` comments,
    /// blank lines, and a repeated `[interface]` block that sets `name`
    /// and lists its rights classes one per line, `class = ordinal, …`.
    /// Total: any malformed input is a [`CatalogueSyntaxError`] naming
    /// the line.
    pub fn parse(text: &str) -> (r: Result<InterfaceCatalogue, CatalogueSyntaxError>)
        ensures
            match parse_catalogue(text@) {
                Ok(es) => r matches Ok(c) && c.entries() == es,
                Err(e) => r == Err::<InterfaceCatalogue, CatalogueSyntaxError>(e),
            },
    {
        let ls = lines(text);
        let ghost lv = lines_of(text@);
        let mut catalogue = InterfaceCatalogue::new();
        let mut block: Option<Block> = None;
        let mut i: usize = 0;
        while i < ls.len()
            invariant
                i <= ls@.len(),
                views(ls@) == lv,
                lv == lines_of(text@),
                read_catalogue(lv, i as int) == Ok::<CatState, CatalogueSyntaxError>(
                    (
                        catalogue.entries(),
                        match block {
                            Some(b) => Some(b@),
                            None => None,
                        },
                    ),
                ),
            decreases ls@.len() - i,
        {
            let line = i + 1;
            assert(lv[i as int] == ls@[i as int]@);
            let s = line_content(ls[i].as_slice());
            if s.len() == 0 {
                i = i + 1;
                continue;
            }
            if s[0] == '[' {
                if s.len() < 2 || s[s.len() - 1] != ']' {
                    proof {
                        lemma_read_catalogue_err_persists(lv, line as int, lv.len() as int);
                    }
                    return Err(CatalogueSyntaxError::Syntax { line });
                }
                let inner = slice_of(s.as_slice(), 1, s.len() - 1);
                let name = trim(inner.as_slice());
                if !crate::text::eq_str(name.as_slice(), "interface") {
                    proof {
                        lemma_read_catalogue_err_persists(lv, line as int, lv.len() as int);
                    }
                    return Err(CatalogueSyntaxError::UnknownSection { line });
                }
                match block {
                    Some(done) => {
                        match done.commit(&mut catalogue) {
                            Ok(()) => {},
                            Err(e) => {
                                proof {
                                    lemma_read_catalogue_err_persists(
                                        lv,
                                        line as int,
                                        lv.len() as int,
                                    );
                                }
                                return Err(e);
                            },
                        }
                    },
                    None => {},
                }
                block = Some(Block::new(line));
                i = i + 1;
                continue;
            }
            let (k, v) = match split_once_at(s.as_slice(), '=') {
                Some(kv) => kv,
                None => {
                    proof {
                        lemma_read_catalogue_err_persists(lv, line as int, lv.len() as int);
                    }
                    return Err(CatalogueSyntaxError::Syntax { line });
                },
            };
            let key = trim(k.as_slice());
            let value = trim(v.as_slice());
            if key.len() == 0 {
                proof {
                    lemma_read_catalogue_err_persists(lv, line as int, lv.len() as int);
                }
                return Err(CatalogueSyntaxError::Syntax { line });
            }
            let mut b = match block {
                Some(b) => b,
                None => {
                    proof {
                        lemma_read_catalogue_err_persists(lv, line as int, lv.len() as int);
                    }
                    return Err(CatalogueSyntaxError::Structure { line });
                },
            };
            let step = if crate::text::eq_str(key.as_slice(), "name") {
                b.set_name(value.as_slice(), line)
            } else {
                b.add_class(key.as_slice(), value.as_slice(), line)
            };
            match step {
                Ok(()) => {},
                Err(e) => {
                    proof {
                        lemma_read_catalogue_err_persists(lv, line as int, lv.len() as int);
                    }
                    return Err(e);
                },
            }
            block = Some(b);
            i = i + 1;
        }
        match block {
            Some(done) => {
                done.commit(&mut catalogue)?;
            },
            None => {},
        }
        Ok(catalogue)
    }
}

// ---- laws ----------------------------------------------------------------------

proof fn lemma_union_append(
    interface: Seq<char>,
    classes: Seq<(Seq<char>, u32)>,
    a: Seq<Seq<char>>,
    b: Seq<Seq<char>>,
    k: int,
)
    requires
        0 <= k <= b.len(),
        union_of(interface, classes, a, a.len() as int) is Ok,
        union_of(interface, classes, b, k) is Ok,
    ensures
        union_of(interface, classes, a + b, a.len() + k) == Ok::<u32, CatalogueFault>(
            union_of(interface, classes, a, a.len() as int)->Ok_0 | union_of(
                interface,
                classes,
                b,
                k,
            )->Ok_0,
        ),
    decreases k,
{
    let ma = union_of(interface, classes, a, a.len() as int)->Ok_0;
    if k == 0 {
        assert(ma | 0u32 == ma) by (bit_vector);
        lemma_union_prefix(interface, classes, a, b, a.len() as int);
    } else {
        lemma_union_append(interface, classes, a, b, k - 1);
        let mb = union_of(interface, classes, b, k - 1)->Ok_0;
        let c = lookup(classes, b[k - 1])->0;
        assert((a + b)[a.len() + k - 1] == b[k - 1]);
        assert((ma | mb) | c == ma | (mb | c)) by (bit_vector);
    }
}

proof fn lemma_union_prefix(
    interface: Seq<char>,
    classes: Seq<(Seq<char>, u32)>,
    a: Seq<Seq<char>>,
    b: Seq<Seq<char>>,
    n: int,
)
    requires
        0 <= n <= a.len(),
    ensures
        union_of(interface, classes, a + b, n) == union_of(interface, classes, a, n),
    decreases n,
{
    if n > 0 {
        lemma_union_prefix(interface, classes, a, b, n - 1);
        assert((a + b)[n - 1] == a[n - 1]);
    }
}

/// Resolving a token list is the union of resolving its parts: the mask
/// of `a` followed by `b` is the mask of `a` or-ed with the mask of `b`.
pub proof fn lemma_resolution_is_a_union(
    cat: Map<Seq<char>, Seq<(Seq<char>, u32)>>,
    name: Seq<char>,
    a: Seq<Seq<char>>,
    b: Seq<Seq<char>>,
)
    requires
        resolution(cat, name, a) is Ok,
        resolution(cat, name, b) is Ok,
    ensures
        resolution(cat, name, a + b) == Ok::<u32, CatalogueFault>(
            resolution(cat, name, a)->Ok_0 | resolution(cat, name, b)->Ok_0,
        ),
{
    lemma_union_append(name, cat[name], a, b, b.len() as int);
}

/// A registered table is what resolution reads back: after registering
/// `classes` under `name`, resolving against `name` uses exactly them.
pub proof fn lemma_resolve_reads_the_registration(
    cat: Map<Seq<char>, Seq<(Seq<char>, u32)>>,
    name: Seq<char>,
    classes: Seq<(Seq<char>, u32)>,
    tokens: Seq<Seq<char>>,
)
    ensures
        resolution(cat.insert(name, classes), name, tokens) == union_of(
            name,
            classes,
            tokens,
            tokens.len() as int,
        ),
{
}

/// The line a catalogue syntax error names.
pub open spec fn syntax_line(e: CatalogueSyntaxError) -> usize {
    match e {
        CatalogueSyntaxError::Syntax { line } => line,
        CatalogueSyntaxError::UnknownSection { line } => line,
        CatalogueSyntaxError::Structure { line } => line,
        CatalogueSyntaxError::BadRights { line } => line,
        CatalogueSyntaxError::Duplicate { line } => line,
    }
}

proof fn lemma_committed_names_the_header(
    es: Seq<(Seq<char>, Seq<(Seq<char>, u32)>)>,
    b: BlockView,
)
    requires
        committed(es, b) is Err,
    ensures
        syntax_line(committed(es, b)->Err_0) == b.line,
{
}

proof fn lemma_read_catalogue_lines(ls: Seq<Seq<char>>, n: int)
    requires
        0 <= n <= ls.len(),
        ls.len() <= usize::MAX,
    ensures
        match read_catalogue(ls, n) {
            Err(e) => 1 <= syntax_line(e) <= n,
            Ok((_, Some(b))) => 1 <= b.line <= n,
            Ok((_, None)) => true,
        },
    decreases n,
{
    if n > 0 {
        lemma_read_catalogue_lines(ls, n - 1);
        match read_catalogue(ls, n - 1) {
            Err(_) => {},
            Ok(st) => {
                if let Some(b) = st.1 {
                    if committed(st.0, b) is Err {
                        lemma_committed_names_the_header(st.0, b);
                    }
                }
            },
        }
    }
}

/// Every rejection of a catalogue file names a line the file has.
pub proof fn lemma_catalogue_rejections_name_their_line(text: Seq<char>)
    requires
        lines_of(text).len() <= usize::MAX,
        parse_catalogue(text) is Err,
    ensures
        1 <= syntax_line(parse_catalogue(text)->Err_0) <= lines_of(text).len(),
{
    let ls = lines_of(text);
    lemma_read_catalogue_lines(ls, ls.len() as int);
    if let Ok((es, Some(b))) = read_catalogue(ls, ls.len() as int) {
        lemma_committed_names_the_header(es, b);
    }
}

// ---- messages ------------------------------------------------------------------

/// The message a failed resolution reads as.
pub open spec fn catalogue_message(f: CatalogueFault) -> Seq<char> {
    match f {
        CatalogueFault::UnknownInterface(name) => "no interface `"@ + name + "` in the catalogue"@,
        CatalogueFault::UnknownRightsClass { interface, class } => "interface `"@ + interface
            + "` has no rights class `"@ + class + "`"@,
    }
}

impl CatalogueError {
    /// The message this error reads as.
    pub fn message(&self) -> (m: String)
        ensures
            m@ == catalogue_message(self@),
    {
        let mut out: Vec<char> = Vec::new();
        match self {
            CatalogueError::UnknownInterface(name) => {
                crate::text::put_str(&mut out, "no interface `");
                crate::text::put_str(&mut out, name.as_str());
                crate::text::put_str(&mut out, "` in the catalogue");
            },
            CatalogueError::UnknownRightsClass { interface, class } => {
                crate::text::put_str(&mut out, "interface `");
                crate::text::put_str(&mut out, interface.as_str());
                crate::text::put_str(&mut out, "` has no rights class `");
                crate::text::put_str(&mut out, class.as_str());
                crate::text::put_str(&mut out, "`");
            },
        }
        crate::text::string_of(out.as_slice())
    }
}

/// The message a catalogue file rejection reads as.
pub open spec fn catalogue_syntax_message(e: CatalogueSyntaxError) -> Seq<char> {
    match e {
        CatalogueSyntaxError::Syntax { line } => "line "@ + crate::log::decimal(line as nat)
            + ": expected `key = value` or `[interface]`"@,
        CatalogueSyntaxError::UnknownSection { line } => "line "@ + crate::log::decimal(line as nat)
            + ": only `[interface]` sections are defined"@,
        CatalogueSyntaxError::Structure { line } => "line "@ + crate::log::decimal(line as nat)
            + ": a rights class outside an `[interface]`, or an `[interface]` with no `name`"@,
        CatalogueSyntaxError::BadRights { line } => "line "@ + crate::log::decimal(line as nat)
            + ": a rights class must list method ordinals 0-31"@,
        CatalogueSyntaxError::Duplicate { line } => "line "@ + crate::log::decimal(line as nat)
            + ": an interface or rights class is declared twice"@,
    }
}

impl CatalogueSyntaxError {
    /// The message this rejection reads as.
    pub fn message(&self) -> (m: String)
        ensures
            m@ == catalogue_syntax_message(*self),
    {
        let mut out: Vec<char> = Vec::new();
        crate::text::put_str(&mut out, "line ");
        match self {
            CatalogueSyntaxError::Syntax { line } => {
                crate::text::put_decimal(&mut out, *line as u64);
                crate::text::put_str(&mut out, ": expected `key = value` or `[interface]`");
            },
            CatalogueSyntaxError::UnknownSection { line } => {
                crate::text::put_decimal(&mut out, *line as u64);
                crate::text::put_str(&mut out, ": only `[interface]` sections are defined");
            },
            CatalogueSyntaxError::Structure { line } => {
                crate::text::put_decimal(&mut out, *line as u64);
                crate::text::put_str(
                    &mut out,
                    ": a rights class outside an `[interface]`, or an `[interface]` with no `name`",
                );
            },
            CatalogueSyntaxError::BadRights { line } => {
                crate::text::put_decimal(&mut out, *line as u64);
                crate::text::put_str(&mut out, ": a rights class must list method ordinals 0-31");
            },
            CatalogueSyntaxError::Duplicate { line } => {
                crate::text::put_decimal(&mut out, *line as u64);
                crate::text::put_str(&mut out, ": an interface or rights class is declared twice");
            },
        }
        crate::text::string_of(out.as_slice())
    }
}

} // verus!
