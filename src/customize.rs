use vstd::prelude::*;

verus! {

/// Extra behaviour that an entity type can be declared with.
#[derive(PartialEq, Eq, Structural, Debug, Copy, Clone)]
pub enum Customization {
    /// The type formats itself with access to the database.
    DebugWithDb,
}

/// How one field of an entity type was declared.
#[derive(PartialEq, Eq, Structural, Debug, Copy, Clone)]
pub struct FieldOptions {
    /// The field is one of the identity fields that form the content key.
    pub id: bool,
    /// The field is read by reference rather than by copy.
    pub return_ref: bool,
    /// The field is always considered changed when written.
    pub no_eq: bool,
}

impl FieldOptions {
    /// Whether the field belongs to the content key.
    pub fn is_id_field(&self) -> (r: bool)
        ensures
            r == self.id,
    {
        self.id
    }

    /// Whether reading the field hands out a copy.
    pub fn is_clone_field(&self) -> (r: bool)
        ensures
            r == !self.return_ref,
    {
        !self.return_ref
    }

    /// Whether an equal new value of the field keeps its revision stamp.
    pub fn is_backdate_field(&self) -> (r: bool)
        ensures
            r == !self.no_eq,
    {
        !self.no_eq
    }
}

/// The positions of the identity fields among `fields`, in increasing order.
pub fn id_field_indices(fields: &Vec<FieldOptions>) -> (r: Vec<usize>)
    ensures
        forall|k: int| 0 <= k < r@.len() ==> #[trigger] r@[k] < fields@.len() && fields@[r@[k] as int].id,
        forall|k: int, l: int| 0 <= k < l < r@.len() ==> r@[k] < r@[l],
        forall|j: int| 0 <= j < fields@.len() && #[trigger] fields@[j].id ==> r@.contains(j as usize),
{
    let mut r: Vec<usize> = Vec::new();
    let mut i: usize = 0;
    while i < fields.len()
        invariant
            0 <= i <= fields@.len(),
            forall|k: int| 0 <= k < r@.len() ==> #[trigger] r@[k] < i && fields@[r@[k] as int].id,
            forall|k: int, l: int| 0 <= k < l < r@.len() ==> r@[k] < r@[l],
            forall|j: int| 0 <= j < i && #[trigger] fields@[j].id ==> r@.contains(j as usize),
        decreases fields.len() - i,
    {
        if fields[i].is_id_field() {
            let ghost r0 = r@;
            r.push(i);
            assert forall|j: int| 0 <= j < i && #[trigger] fields@[j].id implies r@.contains(j as usize) by {
                let k = choose|k: int| 0 <= k < r0.len() && r0[k] == j as usize;
                assert(r@[k] == j as usize);
            }
            assert(r@[r@.len() - 1] == i);
        }
        i = i + 1;
    }
    r
}

/// One flag per field: whether an equal new value keeps the field's stamp.
pub fn backdate_flags(fields: &Vec<FieldOptions>) -> (r: Vec<bool>)
    ensures
        r@.len() == fields@.len(),
        forall|j: int| 0 <= j < fields@.len() ==> r@[j] == !fields@[j].no_eq,
{
    let mut r: Vec<bool> = Vec::new();
    let mut i: usize = 0;
    while i < fields.len()
        invariant
            0 <= i <= fields@.len(),
            r@.len() == i,
            forall|j: int| 0 <= j < i ==> r@[j] == !fields@[j].no_eq,
        decreases fields.len() - i,
    {
        r.push(fields[i].is_backdate_field());
        i = i + 1;
    }
    r
}

/// Why a declaration of an entity type is refused.
#[derive(PartialEq, Eq, Structural, Debug, Copy, Clone)]
pub enum DeclError {
    /// A field has a name that the generated methods already use.
    BannedFieldName,
    /// A customization that is not known.
    UnrecognizedCustomization,
    /// The field at this position is marked as an identity field, which
    /// this kind of entity does not allow.
    IdFieldNotAllowed(usize),
}

/// Whether `a` and `b` hold the same characters.
fn same_text(a: &String, b: &str) -> (r: bool)
    ensures
        r == (a@ == b@),
{
    let b = b.to_owned();
    a.eq(&b)
}

/// Whether `name` is one of the names that no field may have.
pub open spec fn is_banned_field_name(name: Seq<char>) -> bool {
    name == "from"@ || name == "new"@
}

/// Accepts a field name unless the generated methods already use it.
pub fn check_field_name(name: &String) -> (r: Result<(), DeclError>)
    ensures
        r == (if is_banned_field_name(name@) {
            Err(DeclError::BannedFieldName)
        } else {
            Ok(())
        }),
{
    if same_text(name, "from") || same_text(name, "new") {
        Err(DeclError::BannedFieldName)
    } else {
        Ok(())
    }
}

/// The customization named `name`.
pub fn customization_named(name: &String) -> (r: Result<Customization, DeclError>)
    ensures
        r == (if name@ == "DebugWithDb"@ {
            Ok(Customization::DebugWithDb)
        } else {
            Err(DeclError::UnrecognizedCustomization)
        }),
{
    if same_text(name, "DebugWithDb") {
        Ok(Customization::DebugWithDb)
    } else {
        Err(DeclError::UnrecognizedCustomization)
    }
}

/// Whether one of `attrs` is `name`.
pub open spec fn has_attribute(attrs: Seq<String>, name: Seq<char>) -> bool {
    exists|k: int| 0 <= k < attrs.len() && #[trigger] attrs[k]@ == name
}

impl FieldOptions {
    /// The options of a field carrying the attributes named in `attrs`;
    /// names that are no field option are ignored.
    pub fn from_attributes(attrs: &Vec<String>) -> (r: FieldOptions)
        ensures
            r.id == has_attribute(attrs@, "id"@),
            r.return_ref == has_attribute(attrs@, "return_ref"@),
            r.no_eq == has_attribute(attrs@, "no_eq"@),
    {
        let mut r = FieldOptions { id: false, return_ref: false, no_eq: false };
        let mut i: usize = 0;
        while i < attrs.len()
            invariant
                0 <= i <= attrs@.len(),
                r.id == has_attribute(attrs@.subrange(0, i as int), "id"@),
                r.return_ref == has_attribute(attrs@.subrange(0, i as int), "return_ref"@),
                r.no_eq == has_attribute(attrs@.subrange(0, i as int), "no_eq"@),
            decreases attrs.len() - i,
        {
            let ghost before = attrs@.subrange(0, i as int);
            let ghost after = attrs@.subrange(0, i + 1);
            let a = &attrs[i];
            if same_text(a, "id") {
                r.id = true;
            }
            if same_text(a, "return_ref") {
                r.return_ref = true;
            }
            if same_text(a, "no_eq") {
                r.no_eq = true;
            }
            proof {
                assert forall|n: Seq<char>| has_attribute(after, n) == (has_attribute(before, n) || a@ == n) by {
                    if has_attribute(after, n) {
                        let k = choose|k: int| 0 <= k < after.len() && #[trigger] after[k]@ == n;
                        if k < i {
                            assert(before[k] == after[k]);
                        }
                    }
                    if has_attribute(before, n) {
                        let k = choose|k: int| 0 <= k < before.len() && #[trigger] before[k]@ == n;
                        assert(after[k] == before[k]);
                    }
                    if a@ == n {
                        assert(after[i as int] == attrs@[i as int]);
                    }
                }
            }
            i = i + 1;
        }
        assert(attrs@.subrange(0, attrs@.len() as int) =~= attrs@);
        r
    }
}

/// Refuses identity fields, for kinds of entity that have no content key:
/// the error names the first field marked as one.
pub fn disallow_id_fields(fields: &Vec<FieldOptions>) -> (r: Result<(), DeclError>)
    ensures
        r is Ok <==> forall|j: int| 0 <= j < fields@.len() ==> !(#[trigger] fields@[j]).id,
        r matches Err(DeclError::IdFieldNotAllowed(i)) ==> {
            &&& i < fields@.len()
            &&& fields@[i as int].id
            &&& forall|j: int| 0 <= j < i ==> !(#[trigger] fields@[j]).id
        },
        r is Ok || r matches Err(DeclError::IdFieldNotAllowed(_)),
{
    let mut i: usize = 0;
    while i < fields.len()
        invariant
            0 <= i <= fields@.len(),
            forall|j: int| 0 <= j < i ==> !(#[trigger] fields@[j]).id,
        decreases fields.len() - i,
    {
        if fields[i].is_id_field() {
            return Err(DeclError::IdFieldNotAllowed(i));
        }
        i = i + 1;
    }
    Ok(())
}

} // verus!
