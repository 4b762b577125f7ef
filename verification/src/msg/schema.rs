//! How a message type's declaration maps to the wire: the names its
//! fields and variants travel under, and an interface enum's method table
//! (each variant's ordinal and kind, and its rights classes).

use vstd::prelude::*;
use crate::msg::envelope::MessageKind;
use crate::log::lower;

verus! {

/// How field and variant names map to wire names.
#[derive(Debug, Clone, Copy, PartialEq, Eq, Structural)]
pub enum RenameRule {
    /// Names travel as declared.
    Unchanged,
    /// `kebab-case`.
    Kebab,
    /// `snake_case`.
    Snake,
}

/// The name after reading the first `i` characters of `ident`: CamelCase
/// humps and existing `_` / `-` become word breaks joined by `delim`, and
/// capitals are lowered.
pub open spec fn delimit_scan(ident: Seq<char>, delim: char, i: int) -> Seq<char>
    decreases i,
{
    if i <= 0 {
        Seq::empty()
    } else {
        let out = delimit_scan(ident, delim, i - 1);
        let ch = ident[i - 1];
        let ends = out.len() > 0 && out.last() == delim;
        if ch == '_' || ch == '-' {
            if i - 1 != 0 && !ends {
                out.push(delim)
            } else {
                out
            }
        } else if 'A' <= ch <= 'Z' {
            let o = if i - 1 != 0 && out.len() > 0 && !ends {
                out.push(delim)
            } else {
                out
            };
            o.push(lower(ch))
        } else {
            out.push(ch)
        }
    }
}

pub open spec fn delimited(ident: Seq<char>, delim: char) -> Seq<char> {
    delimit_scan(ident, delim, ident.len() as int)
}

pub open spec fn renamed(rule: RenameRule, ident: Seq<char>) -> Seq<char> {
    match rule {
        RenameRule::Unchanged => ident,
        RenameRule::Kebab => delimited(ident, '-'),
        RenameRule::Snake => delimited(ident, '_'),
    }
}

/// Lower-case `ident`, treating CamelCase humps and existing `_` / `-` as
/// word breaks, joining words with `delim`.
pub fn delimit(ident: &str, delim: char) -> (r: String)
    ensures
        r@ == delimited(ident@, delim),
{
    let cs = crate::text::chars_of(ident);
    let mut out: Vec<char> = Vec::new();
    let mut i: usize = 0;
    while i < cs.len()
        invariant
            i <= cs@.len(),
            cs@ == ident@,
            out@ == delimit_scan(cs@, delim, i as int),
        decreases cs@.len() - i,
    {
        let ch = cs[i];
        let ends = out.len() > 0 && out[out.len() - 1] == delim;
        if ch == '_' || ch == '-' {
            if i != 0 && !ends {
                out.push(delim);
            }
        } else if 'A' <= ch && ch <= 'Z' {
            if i != 0 && out.len() > 0 && !ends {
                out.push(delim);
            }
            let l = ((ch as u32) + 32) as u8 as char;
            assert(l == lower(ch));
            out.push(l);
        } else {
            out.push(ch);
        }
        i = i + 1;
    }
    crate::text::string_of(out.as_slice())
}

impl RenameRule {
    /// The wire name of the declared name `ident`.
    pub fn apply(&self, ident: &str) -> (r: String)
        ensures
            r@ == renamed(*self, ident@),
    {
        match self {
            RenameRule::Unchanged => ident.to_owned(),
            RenameRule::Kebab => delimit(ident, '-'),
            RenameRule::Snake => delimit(ident, '_'),
        }
    }

    /// The rule a `rename_all` value names.
    pub fn named(value: &str) -> (r: Option<RenameRule>)
        ensures
            r == (if value@ == "kebab-case"@ {
                Some(RenameRule::Kebab)
            } else if value@ == "snake_case"@ {
                Some(RenameRule::Snake)
            } else {
                None
            }),
    {
        let v = crate::text::chars_of(value);
        if crate::text::eq_str(v.as_slice(), "kebab-case") {
            Some(RenameRule::Kebab)
        } else if crate::text::eq_str(v.as_slice(), "snake_case") {
            Some(RenameRule::Snake)
        } else {
            None
        }
    }
}

/// One variant of an interface's message enum, as declared: its kind
/// marker and its rights class, if any.
#[derive(Debug, Clone, PartialEq, Eq)]
pub struct MethodDecl {
    pub kind: MessageKind,
    pub rights: Option<String>,
}

/// Why a method table cannot be made.
#[derive(Debug, Clone, Copy, PartialEq, Eq, Structural)]
pub enum MethodTableError {
    /// More than 65536 methods: ordinals are `u16`.
    TooManyMethods { index: usize },
    /// A method with a rights class has ordinal 32 or more: the
    /// object-rights mask is a `u32`.
    ClassedOrdinalTooLarge { index: usize },
}

/// The rights classes after the first `n` variants, each class with the
/// mask of the ordinals tagged with it, in first-encountered order.
pub open spec fn classes_scan(rights: Seq<Option<Seq<char>>>, n: int) -> Seq<(Seq<char>, u32)>
    decreases n,
{
    if n <= 0 {
        Seq::empty()
    } else {
        let cs = classes_scan(rights, n - 1);
        match rights[n - 1] {
            None => cs,
            Some(name) => merge_class(cs, name, 1u32 << ((n - 1) as u32)),
        }
    }
}

/// `bit` added to the class `name`, or a new class at the end.
pub open spec fn merge_class(cs: Seq<(Seq<char>, u32)>, name: Seq<char>, bit: u32) -> Seq<
    (Seq<char>, u32),
>
    decreases cs.len(),
{
    if cs.len() == 0 {
        seq![(name, bit)]
    } else if cs[0].0 == name {
        cs.update(0, (name, cs[0].1 | bit))
    } else {
        seq![cs[0]] + merge_class(cs.drop_first(), name, bit)
    }
}

/// The first of the first `n` variants that cannot be tabled, if any: an
/// ordinal past `u16`, or a classed ordinal past the mask width.
pub open spec fn table_error(rights: Seq<Option<Seq<char>>>, n: int) -> Option<MethodTableError>
    decreases n,
{
    if n <= 0 {
        None
    } else {
        match table_error(rights, n - 1) {
            Some(e) => Some(e),
            None => if n - 1 > 65535 {
                Some(MethodTableError::TooManyMethods { index: (n - 1) as usize })
            } else if n - 1 >= 32 && rights[n - 1] is Some {
                Some(MethodTableError::ClassedOrdinalTooLarge { index: (n - 1) as usize })
            } else {
                None
            },
        }
    }
}

pub open spec fn decl_rights(ds: Seq<MethodDecl>) -> Seq<Option<Seq<char>>> {
    ds.map_values(
        |d: MethodDecl|
            match d.rights {
                Some(r) => Some(r@),
                None => None,
            },
    )
}

pub open spec fn class_views(v: Seq<(String, u32)>) -> Seq<(Seq<char>, u32)> {
    v.map_values(|c: (String, u32)| (c.0@, c.1))
}

/// Merge `bit` into the class `name`.
fn merge(classes: &mut Vec<(String, u32)>, name: &String, bit: u32)
    ensures
        class_views(final(classes)@) == merge_class(class_views(old(classes)@), name@, bit),
{
    let ghost cs = class_views(classes@);
    let mut i: usize = 0;
    while i < classes.len() && classes[i].0 != *name
        invariant
            i <= classes@.len(),
            cs == class_views(classes@),
            forall|j: int| 0 <= j < i ==> (#[trigger] cs[j]).0 != name@,
        decreases classes@.len() - i,
    {
        assert(cs[i as int].0 == classes@[i as int].0@);
        i = i + 1;
    }
    proof {
        lemma_merge_at(cs, name@, bit, i as int);
    }
    if i < classes.len() {
        assert(cs[i as int].0 == classes@[i as int].0@);
        let (n, m) = classes.remove(i);
        classes.insert(i, (n, m | bit));
        assert(class_views(classes@) =~= cs.update(i as int, (name@, cs[i as int].1 | bit)));
    } else {
        classes.push((name.clone(), bit));
        assert(class_views(classes@) =~= cs.push((name@, bit)));
    }
}

/// Merging finds the class at `i`, the first of that name, or adds it.
proof fn lemma_merge_at(cs: Seq<(Seq<char>, u32)>, name: Seq<char>, bit: u32, i: int)
    requires
        0 <= i <= cs.len(),
        forall|j: int| 0 <= j < i ==> (#[trigger] cs[j]).0 != name,
        i == cs.len() || cs[i].0 == name,
    ensures
        merge_class(cs, name, bit) == (if i < cs.len() {
            cs.update(i, (name, cs[i].1 | bit))
        } else {
            cs.push((name, bit))
        }),
    decreases cs.len(),
{
    if cs.len() == 0 {
        assert(seq![(name, bit)] =~= cs.push((name, bit)));
    } else if i == 0 {
    } else {
        let t = cs.drop_first();
        assert forall|j: int| 0 <= j < i - 1 implies (#[trigger] t[j]).0 != name by {
            assert(t[j] == cs[j + 1]);
        }
        if i < cs.len() {
            assert(t[i - 1] == cs[i]);
        }
        lemma_merge_at(t, name, bit, i - 1);
        if i < cs.len() {
            assert(seq![cs[0]] + t.update(i - 1, (name, t[i - 1].1 | bit)) =~= cs.update(
                i,
                (name, cs[i].1 | bit),
            ));
        } else {
            assert(seq![cs[0]] + t.push((name, bit)) =~= cs.push((name, bit)));
        }
    }
}

/// The rights classes of an interface enum: each class name with the
/// bitmask of the ordinals of the methods tagged with it, in
/// first-encountered order. A tagged method must have ordinal < 32, and
/// there are at most 65536 methods.
pub fn rights_classes(decls: &[MethodDecl]) -> (r: Result<Vec<(String, u32)>, MethodTableError>)
    ensures
        match table_error(decl_rights(decls@), decls@.len() as int) {
            Some(e) => r == Err::<Vec<(String, u32)>, MethodTableError>(e),
            None => r matches Ok(cs) && class_views(cs@) == classes_scan(
                decl_rights(decls@),
                decls@.len() as int,
            ),
        },
{
    let ghost rs = decl_rights(decls@);
    let mut classes: Vec<(String, u32)> = Vec::new();
    let mut i: usize = 0;
    while i < decls.len()
        invariant
            i <= decls@.len(),
            rs == decl_rights(decls@),
            table_error(rs, i as int) is None,
            class_views(classes@) == classes_scan(rs, i as int),
        decreases decls@.len() - i,
    {
        assert(rs[i as int] == match decls@[i as int].rights {
            Some(r) => Some(r@),
            None => None::<Seq<char>>,
        });
        if i > 65535 {
            proof {
                lemma_table_error_persists(rs, i + 1, decls@.len() as int);
            }
            return Err(MethodTableError::TooManyMethods { index: i });
        }
        match &decls[i].rights {
            Some(name) => {
                if i >= 32 {
                    proof {
                        lemma_table_error_persists(rs, i + 1, decls@.len() as int);
                    }
                    return Err(MethodTableError::ClassedOrdinalTooLarge { index: i });
                }
                let bit: u32 = 1u32 << (i as u32);
                merge(&mut classes, name, bit);
            },
            None => {},
        }
        i = i + 1;
    }
    Ok(classes)
}

proof fn lemma_table_error_persists(rights: Seq<Option<Seq<char>>>, k: int, n: int)
    requires
        0 < k <= n,
        table_error(rights, k) is Some,
    ensures
        table_error(rights, n) == table_error(rights, k),
    decreases n - k,
{
    if k < n {
        lemma_table_error_persists(rights, k, n - 1);
    }
}

/// The method id of the variant declared `index`-th: its ordinal.
pub fn method_ordinal(index: usize) -> (r: Option<u16>)
    ensures
        index <= 65535 ==> r == Some(index as u16),
        index > 65535 ==> r is None,
{
    if index <= 65535 {
        Some(index as u16)
    } else {
        None
    }
}

} // verus!
