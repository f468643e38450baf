//! The names of what is generated for a compiled schema.
//!
//! For every entity, and for every type that is no enumeration, the
//! generated module holds a data type, a table of its instances and an
//! accessor of that table. Their names are decided here; writing out the
//! tokens is left to the generator.

use crate::ir::schema::Entity;
use crate::ir::schema::Schema;
use crate::ir::schema::TypeDecl;
use crate::ir::schema::TypeRef;
use check_keyword::CheckKeyword;
use inflector::Inflector;
use vstd::prelude::*;
use vstd::string::StringExecFns;

verus! {

/// What `Inflector::to_pascal_case` makes of a name.
pub uninterp spec fn pascal_cased(name: Seq<char>) -> Seq<char>;

/// What `CheckKeyword::into_safe` makes of a name.
pub uninterp spec fn escaped(name: Seq<char>) -> Seq<char>;

/// The name in `PascalCase`, by `Inflector::to_pascal_case`.
///
/// Trusted: the result depends on the name alone.
#[verifier::external_body]
fn to_pascal_case(name: &str) -> (r: String)
    ensures
        r@ == pascal_cased(name@),
{
    name.to_pascal_case()
}

/// The name as an identifier of Rust, by `CheckKeyword::into_safe`.
///
/// Trusted: the result depends on the name alone, and is the name
/// itself or the name behind `r#`.
#[verifier::external_body]
fn into_safe(name: &str) -> (r: String)
    ensures
        r@ == escaped(name@),
        r@ == name@ || r@ == "r#"@ + name@,
{
    name.into_safe()
}

/// The names generated for one entity or type.
#[derive(Debug, PartialEq, Eq)]
pub struct TableEntry {
    /// The name of the data type
    pub data_type: String,
    /// The name of the table of its instances
    pub holder_name: String,
    /// The name of the accessor of the table
    pub holders_name: String,
}

/// The names generated for one entity or type, as plain values.
pub struct TableEntryView {
    pub data_type: Seq<char>,
    pub holder_name: Seq<char>,
    pub holders_name: Seq<char>,
}

impl View for TableEntry {
    type V = TableEntryView;

    open spec fn view(&self) -> TableEntryView {
        TableEntryView {
            data_type: self.data_type@,
            holder_name: self.holder_name@,
            holders_name: self.holders_name@,
        }
    }
}

/// The entries of a sequence as plain values.
pub open spec fn table_entry_views(s: Seq<TableEntry>) -> Seq<TableEntryView> {
    s.map_values(|e: TableEntry| e@)
}

/// The names generated for the entity or type `name`: the data type is
/// called by the name in pascal case, the table by the name itself, made
/// safe where it is a keyword, and the accessor by the name with
/// `_holders` behind it.
pub open spec fn entry_for(name: Seq<char>) -> TableEntryView {
    TableEntryView {
        data_type: pascal_cased(name),
        holder_name: escaped(name),
        holders_name: name + "_holders"@,
    }
}

/// Whether a table is generated for a type: for every type but an enumeration.
pub open spec fn has_table(decl: TypeDecl) -> bool {
    !(decl.underlying is Enumeration)
}

/// The entries of the first `n` entities, in their order.
pub open spec fn entity_entries(entities: Seq<Entity>, n: nat) -> Seq<TableEntryView>
    decreases n,
{
    if n == 0 || n > entities.len() {
        Seq::empty()
    } else {
        entity_entries(entities, (n - 1) as nat).push(entry_for(entities[n - 1].name@))
    }
}

/// The entries of those of the first `n` types that have a table, in their order.
pub open spec fn type_entries(types: Seq<TypeDecl>, n: nat) -> Seq<TableEntryView>
    decreases n,
{
    if n == 0 || n > types.len() {
        Seq::empty()
    } else if has_table(types[n - 1]) {
        type_entries(types, (n - 1) as nat).push(entry_for(types[n - 1].name@))
    } else {
        type_entries(types, (n - 1) as nat)
    }
}

/// The entries of a schema: those of its entities, then those of its types.
pub open spec fn table_entries(schema: Schema) -> Seq<TableEntryView> {
    entity_entries(schema.entities@, schema.entities@.len()) + type_entries(
        schema.types@,
        schema.types@.len(),
    )
}

impl TableEntry {
    /// The entry of the entity or type `name`, whose data type is to be
    /// called `data_type` and whose table `holder_name`.
    pub fn new(name: &str, data_type: String, holder_name: String) -> (r: Self)
        ensures
            r@ == (TableEntryView {
                data_type: data_type@,
                holder_name: holder_name@,
                holders_name: name@ + "_holders"@,
            }),
    {
        let mut holders_name = name.to_owned();
        holders_name.append("_holders");
        TableEntry { data_type, holder_name, holders_name }
    }

    /// The entry of the entity or type `name`.
    pub fn of(name: &str) -> (r: Self)
        ensures
            r@ == entry_for(name@),
    {
        Self::new(name, to_pascal_case(name), into_safe(name))
    }
}

impl Schema {
    /// The names of what is generated for the schema: an entry for each
    /// entity, then one for each type that is no enumeration.
    pub fn table_entries(&self) -> (r: Vec<TableEntry>)
        ensures
            table_entry_views(r@) == table_entries(*self),
    {
        let mut out: Vec<TableEntry> = Vec::new();
        let mut k: usize = 0;
        proof {
            assert(table_entry_views(out@) =~= entity_entries(self.entities@, 0));
        }
        while k < self.entities.len()
            invariant
                k <= self.entities.len(),
                table_entry_views(out@) == entity_entries(self.entities@, k as nat),
            decreases self.entities.len() - k,
        {
            let ghost before = out@;
            let e = TableEntry::of(self.entities[k].name.as_str());
            out.push(e);
            proof {
                assert(table_entry_views(out@) =~= table_entry_views(before).push(e@));
            }
            k += 1;
        }
        let ghost first = table_entry_views(out@);
        let mut k: usize = 0;
        proof {
            assert(first + type_entries(self.types@, 0) =~= first);
        }
        while k < self.types.len()
            invariant
                k <= self.types.len(),
                first == entity_entries(self.entities@, self.entities@.len()),
                table_entry_views(out@) == first + type_entries(self.types@, k as nat),
            decreases self.types.len() - k,
        {
            let ghost before = out@;
            let keep = match &self.types[k].underlying {
                TypeRef::Enumeration(_) => false,
                _ => true,
            };
            if keep {
                let e = TableEntry::of(self.types[k].name.as_str());
                out.push(e);
                proof {
                    assert(table_entry_views(out@) =~= table_entry_views(before).push(e@));
                    assert((first + type_entries(self.types@, k as nat)).push(e@) =~= first
                        + type_entries(self.types@, k as nat).push(e@));
                }
            }
            k += 1;
        }
        out
    }
}

/// The shape of the type of a field of a generated struct.
#[derive(Debug, Clone, Copy, PartialEq, Eq, Structural)]
pub enum FieldShape {
    /// A named type
    Path,
    /// `Option` of a type
    Optional,
    /// `Vec` of a type
    List,
}

/// How the field of a holder becomes the field of the struct it stands for.
#[derive(Debug, Clone, Copy, PartialEq, Eq, Structural)]
pub enum Conversion {
    /// The field is taken as it is
    Keep,
    /// The place holder is looked up in its table
    IntoOwned,
    /// The place holder is looked up in its table if there is one
    IntoOwnedIfSome,
}

/// How a field of the shape `shape` is converted: a field that holds no
/// place holder is kept; a place holder is looked up, alone or inside an
/// `Option`. A list of place holders has no conversion.
pub open spec fn conversion_of(shape: FieldShape, place_holder: bool) -> Option<Conversion> {
    if !place_holder {
        Some(Conversion::Keep)
    } else {
        match shape {
            FieldShape::Path => Some(Conversion::IntoOwned),
            FieldShape::Optional => Some(Conversion::IntoOwnedIfSome),
            FieldShape::List => None,
        }
    }
}

/// How a field of the shape `shape` is converted, if it can be.
pub fn conversion(shape: FieldShape, place_holder: bool) -> (r: Option<Conversion>)
    ensures
        r == conversion_of(shape, place_holder),
{
    if !place_holder {
        Some(Conversion::Keep)
    } else {
        match shape {
            FieldShape::Path => Some(Conversion::IntoOwned),
            FieldShape::Optional => Some(Conversion::IntoOwnedIfSome),
            FieldShape::List => None,
        }
    }
}

} // verus!
