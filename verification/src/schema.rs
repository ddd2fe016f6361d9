//! The attribute catalog: attribute flags, controlled builders, and the
//! ident↔entid bijection.

use crate::keyed::{find_entid, find_str, keyed_distinct, keyed_get, keyed_has};
use crate::types::{Entid, ValueType};
use vstd::prelude::*;

verus! {

/// The schema flags of one attribute.
#[derive(Clone, Copy, Debug, PartialEq, Eq, Structural)]
pub struct Attribute {
    /// The type of the values this attribute carries.
    pub value_type: ValueType,
    /// `false` means cardinality one, `true` cardinality many.
    pub multival: bool,
    /// `:db.unique/value`: no two entities may carry the same value.
    pub unique_value: bool,
    /// `:db.unique/identity`: like `unique_value`, and additionally an
    /// upsert target.
    pub unique_identity: bool,
    /// Is this attribute indexed?
    pub index: bool,
    /// Is this attribute stored through the fulltext value table?
    pub fulltext: bool,
    /// Do entities referenced through this attribute belong to their parent?
    pub component: bool,
    /// Is history retention waived for this attribute?
    pub no_history: bool,
}

impl Attribute {
    /// The declared invariants of an attribute: fulltext attributes carry
    /// strings, unique-identity attributes are indexed, and unique
    /// attributes have cardinality one.
    pub open spec fn valid(self) -> bool {
        &&& (self.fulltext ==> self.value_type == ValueType::String)
        &&& (self.unique_identity ==> self.index)
        &&& ((self.unique_value || self.unique_identity) ==> !self.multival)
    }

    /// Executable form of [`Attribute::valid`].
    pub fn check_valid(&self) -> (r: bool)
        ensures
            r == self.valid(),
    {
        (!self.fulltext || matches!(self.value_type, ValueType::String)) && (!self.unique_identity
            || self.index) && (!(self.unique_value || self.unique_identity) || !self.multival)
    }

    /// Is this attribute a unique attribute of either flavour?
    pub fn is_unique(&self) -> (r: bool)
        ensures
            r == (self.unique_value || self.unique_identity),
    {
        self.unique_value || self.unique_identity
    }
}

/// Accumulates the schema assertions that target one entid, before they are
/// applied as an install of a new attribute or an alteration of an existing
/// one.
#[derive(Clone, Copy, Debug)]
pub struct AttributeBuilder {
    pub value_type: Option<ValueType>,
    pub multival: Option<bool>,
    pub unique_value: Option<bool>,
    pub unique_identity: Option<bool>,
    pub index: Option<bool>,
    pub fulltext: Option<bool>,
    pub component: Option<bool>,
    pub no_history: Option<bool>,
}

impl Default for AttributeBuilder {
    /// A builder with nothing set.
    fn default() -> (b: AttributeBuilder)
        ensures
            b == AttributeBuilder::empty_spec(),
    {
        AttributeBuilder {
            value_type: None,
            multival: None,
            unique_value: None,
            unique_identity: None,
            index: None,
            fulltext: None,
            component: None,
            no_history: None,
        }
    }
}

impl AttributeBuilder {
    pub open spec fn empty_spec() -> AttributeBuilder {
        AttributeBuilder {
            value_type: None,
            multival: None,
            unique_value: None,
            unique_identity: None,
            index: None,
            fulltext: None,
            component: None,
            no_history: None,
        }
    }

    pub fn value_type(&mut self, value_type: ValueType)
        ensures
            *final(self) == (AttributeBuilder { value_type: Some(value_type), ..*old(self) }),
    {
        self.value_type = Some(value_type);
    }

    pub fn multival(&mut self, multival: bool)
        ensures
            *final(self) == (AttributeBuilder { multival: Some(multival), ..*old(self) }),
    {
        self.multival = Some(multival);
    }

    pub fn unique_value(&mut self, unique_value: bool)
        ensures
            *final(self) == (AttributeBuilder { unique_value: Some(unique_value), ..*old(self) }),
    {
        self.unique_value = Some(unique_value);
    }

    pub fn unique_identity(&mut self, unique_identity: bool)
        ensures
            *final(self) == (AttributeBuilder {
                unique_identity: Some(unique_identity),
                ..*old(self)
            }),
    {
        self.unique_identity = Some(unique_identity);
    }

    pub fn index(&mut self, index: bool)
        ensures
            *final(self) == (AttributeBuilder { index: Some(index), ..*old(self) }),
    {
        self.index = Some(index);
    }

    pub fn fulltext(&mut self, fulltext: bool)
        ensures
            *final(self) == (AttributeBuilder { fulltext: Some(fulltext), ..*old(self) }),
    {
        self.fulltext = Some(fulltext);
    }

    pub fn component(&mut self, component: bool)
        ensures
            *final(self) == (AttributeBuilder { component: Some(component), ..*old(self) }),
    {
        self.component = Some(component);
    }

    pub fn no_history(&mut self, no_history: bool)
        ensures
            *final(self) == (AttributeBuilder { no_history: Some(no_history), ..*old(self) }),
    {
        self.no_history = Some(no_history);
    }

    /// An install must declare a value type.
    pub fn is_valid_install_attribute(&self) -> (r: bool)
        ensures
            r == self.value_type is Some,
    {
        self.value_type.is_some()
    }

    /// An alteration must not re-declare the value type, and may not touch
    /// the fulltext flag.
    pub fn is_valid_alter_attribute(&self) -> (r: bool)
        ensures
            r == (self.value_type is None && self.fulltext is None),
    {
        self.value_type.is_none() && self.fulltext.is_none()
    }

    /// The attribute this builder installs.
    pub open spec fn spec_build(self) -> Attribute {
        Attribute {
            value_type: self.value_type->0,
            multival: self.multival is Some && self.multival->0,
            unique_value: self.unique_value is Some && self.unique_value->0,
            unique_identity: self.unique_identity is Some && self.unique_identity->0,
            index: self.index is Some && self.index->0,
            fulltext: self.fulltext is Some && self.fulltext->0,
            component: self.component is Some && self.component->0,
            no_history: self.no_history is Some && self.no_history->0,
        }
    }

    /// Build the attribute of a fresh install; unset flags default to off.
    pub fn build(&self) -> (a: Attribute)
        requires
            self.value_type is Some,
        ensures
            a == self.spec_build(),
    {
        Attribute {
            value_type: match self.value_type {
                Some(t) => t,
                None => ValueType::Ref,
            },
            multival: matches!(self.multival, Some(true)),
            unique_value: matches!(self.unique_value, Some(true)),
            unique_identity: matches!(self.unique_identity, Some(true)),
            index: matches!(self.index, Some(true)),
            fulltext: matches!(self.fulltext, Some(true)),
            component: matches!(self.component, Some(true)),
            no_history: matches!(self.no_history, Some(true)),
        }
    }

    /// The attribute that results from altering `a` with this builder.
    pub open spec fn spec_mutate(self, a: Attribute) -> Attribute {
        Attribute {
            value_type: a.value_type,
            multival: if self.multival is Some {
                self.multival->0
            } else {
                a.multival
            },
            unique_value: if self.unique_value is Some {
                self.unique_value->0
            } else {
                a.unique_value
            },
            unique_identity: if self.unique_identity is Some {
                self.unique_identity->0
            } else {
                a.unique_identity
            },
            index: if self.index is Some {
                self.index->0
            } else {
                a.index
            },
            fulltext: a.fulltext,
            component: if self.component is Some {
                self.component->0
            } else {
                a.component
            },
            no_history: if self.no_history is Some {
                self.no_history->0
            } else {
                a.no_history
            },
        }
    }
}

/// A map from attribute entid to its flags.
pub type SchemaMap = Vec<(Entid, Attribute)>;

/// The schema of a store.
///
/// Maintains the bijection between string idents and entids, and the flags
/// associated to each attribute entid.
#[derive(Debug, Clone)]
pub struct Schema {
    /// Map entid → ident.  Invariant: the inverse of `ident_map`.
    pub entid_map: Vec<(Entid, String)>,

    /// Map ident → entid.  Invariant: the inverse of `entid_map`.
    pub ident_map: Vec<(String, Entid)>,

    /// Map attribute entid → attribute flags.  Invariant: every key appears
    /// in `entid_map`.
    pub schema_map: SchemaMap,
}

impl Schema {
    /// The well-formedness of a schema: `entid_map` and `ident_map` are
    /// mutually inverse maps, every attribute entid carries an ident, and
    /// every attribute meets its declared invariants.
    pub open spec fn wf(self) -> bool {
        &&& keyed_distinct(self.entid_map@)
        &&& keyed_distinct(self.ident_map@)
        &&& keyed_distinct(self.schema_map@)
        &&& forall|i: int|
            0 <= i < self.entid_map@.len() ==> keyed_has(
                self.ident_map@,
                #[trigger] self.entid_map@[i].1@,
            ) && keyed_get(self.ident_map@, self.entid_map@[i].1@) == self.entid_map@[i].0
        &&& forall|i: int|
            0 <= i < self.ident_map@.len() ==> keyed_has(
                self.entid_map@,
                #[trigger] self.ident_map@[i].1,
            ) && keyed_get(self.entid_map@, self.ident_map@[i].1)@ == self.ident_map@[i].0@
        &&& forall|i: int|
            0 <= i < self.schema_map@.len() ==> keyed_has(
                self.entid_map@,
                #[trigger] self.schema_map@[i].0,
            )
        &&& forall|i: int|
            0 <= i < self.schema_map@.len() ==> (#[trigger] self.schema_map@[i].1).valid()
    }

    /// An empty schema.
    pub fn new() -> (s: Schema)
        ensures
            s.wf(),
            s.entid_map@.len() == 0,
            s.ident_map@.len() == 0,
            s.schema_map@.len() == 0,
    {
        Schema { entid_map: Vec::new(), ident_map: Vec::new(), schema_map: Vec::new() }
    }

    /// The ident bound to `entid`, if any.
    pub fn get_ident(&self, entid: Entid) -> (r: Option<&String>)
        requires
            self.wf(),
        ensures
            match r {
                Some(s) => keyed_has(self.entid_map@, entid) && s@ == keyed_get(
                    self.entid_map@,
                    entid,
                )@,
                None => !keyed_has(self.entid_map@, entid),
            },
    {
        match find_entid(&self.entid_map, entid) {
            Some(i) => Some(&self.entid_map[i].1),
            None => None,
        }
    }

    /// The entid bound to `ident`, if any.
    pub fn get_entid(&self, ident: &String) -> (r: Option<Entid>)
        requires
            self.wf(),
        ensures
            match r {
                Some(e) => keyed_has(self.ident_map@, ident@) && e == keyed_get(
                    self.ident_map@,
                    ident@,
                ),
                None => !keyed_has(self.ident_map@, ident@),
            },
    {
        match find_str(&self.ident_map, ident) {
            Some(i) => Some(self.ident_map[i].1),
            None => None,
        }
    }

    /// The attribute flags of `entid`, if `entid` is an attribute.
    pub fn attribute_for_entid(&self, entid: Entid) -> (r: Option<Attribute>)
        requires
            self.wf(),
        ensures
            match r {
                Some(a) => keyed_has(self.schema_map@, entid) && a == keyed_get(
                    self.schema_map@,
                    entid,
                ) && a.valid(),
                None => !keyed_has(self.schema_map@, entid),
            },
    {
        match find_entid(&self.schema_map, entid) {
            Some(i) => {
                proof {
                    assert(self.schema_map@[i as int].1.valid());
                }
                Some(self.schema_map[i].1)
            },
            None => None,
        }
    }

    /// Is `entid` an ident-bearing entity?
    pub fn has_entid(&self, entid: Entid) -> (r: bool)
        requires
            self.wf(),
        ensures
            r == keyed_has(self.entid_map@, entid),
    {
        find_entid(&self.entid_map, entid).is_some()
    }
}

} // verus!

verus! {

use crate::errors::ErrorKind;

impl Schema {
    /// Bind the ident `s` to the entity `e`.
    ///
    /// Asserting an existing binding again is a no-op.  Binding an entid
    /// that already carries a different ident, or an ident already bound to
    /// a different entid, is refused: idents are never rebound in this core.
    pub fn bind_ident(&mut self, e: Entid, s: String) -> (r: Result<(), ErrorKind>)
        requires
            old(self).wf(),
        ensures
            final(self).wf(),
            final(self).schema_map@ == old(self).schema_map@,
            match r {
                Ok(()) => {
                    &&& keyed_has(final(self).entid_map@, e)
                    &&& keyed_get(final(self).entid_map@, e)@ == s@
                    &&& keyed_has(final(self).ident_map@, s@)
                    &&& keyed_get(final(self).ident_map@, s@) == e
                    &&& forall|k: i64|
                        k != e ==> keyed_has(final(self).entid_map@, k) == keyed_has(
                            old(self).entid_map@,
                            k,
                        )
                    &&& forall|k: i64|
                        k != e && keyed_has(old(self).entid_map@, k) ==> keyed_get(
                            final(self).entid_map@,
                            k,
                        )@ == keyed_get(old(self).entid_map@, k)@
                    &&& forall|k: Seq<char>|
                        k != s@ ==> keyed_has(final(self).ident_map@, k) == keyed_has(
                            old(self).ident_map@,
                            k,
                        )
                    &&& forall|k: Seq<char>|
                        k != s@ && keyed_has(old(self).ident_map@, k) ==> keyed_get(
                            final(self).ident_map@,
                            k,
                        ) == keyed_get(old(self).ident_map@, k)
                },
                Err(_) => *final(self) == *old(self),
            },
            r is Ok <==> ((keyed_has(old(self).entid_map@, e) ==> keyed_get(
                old(self).entid_map@,
                e,
            )@ == s@) && (keyed_has(old(self).ident_map@, s@) ==> keyed_get(
                old(self).ident_map@,
                s@,
            ) == e)),
            r matches Err(k) ==> k is BadSchemaAssertion,
    {
        let ghost pre = *self;
        match find_entid(&self.entid_map, e) {
            Some(i) => {
                if self.entid_map[i].1.eq(&s) {
                    proof {
                        crate::keyed::lemma_keyed_idx_unique(self.entid_map@, e, i as int);
                        assert(keyed_has(self.ident_map@, self.entid_map@[i as int].1@));
                    }
                    Ok(())
                } else {
                    Err(
                        ErrorKind::BadSchemaAssertion(
                            String::from_str("entid is already bound to another ident"),
                        ),
                    )
                }
            },
            None => {
                match find_str(&self.ident_map, &s) {
                    Some(_) => Err(
                        ErrorKind::BadSchemaAssertion(
                            String::from_str("ident is already bound to another entid"),
                        ),
                    ),
                    None => {
                        proof {
                            crate::keyed::lemma_keyed_push(self.entid_map@, (e, s));
                            crate::keyed::lemma_keyed_push(self.ident_map@, (s, e));
                        }
                        let s2 = s.clone();
                        self.entid_map.push((e, s));
                        self.ident_map.push((s2, e));
                        proof {
                            let em = self.entid_map@;
                            let im = self.ident_map@;
                            assert forall|i: int| 0 <= i < em.len() implies keyed_has(
                                im,
                                #[trigger] em[i].1@,
                            ) && keyed_get(im, em[i].1@) == em[i].0 by {
                                if i < em.len() - 1 {
                                    assert(em[i] == pre.entid_map@[i]);
                                    assert(keyed_has(pre.ident_map@, em[i].1@));
                                    if em[i].1@ == im[im.len() - 1].0@ {
                                        assert(keyed_has(pre.ident_map@, im[im.len() - 1].0@));
                                    }
                                }
                            }
                            assert forall|i: int| 0 <= i < im.len() implies keyed_has(
                                em,
                                #[trigger] im[i].1,
                            ) && keyed_get(em, im[i].1)@ == im[i].0@ by {
                                if i < im.len() - 1 {
                                    assert(im[i] == pre.ident_map@[i]);
                                    assert(keyed_has(pre.entid_map@, im[i].1));
                                    if im[i].1 == em[em.len() - 1].0 {
                                        assert(keyed_has(pre.entid_map@, em[em.len() - 1].0));
                                    }
                                }
                            }
                            assert forall|i: int| 0 <= i < self.schema_map@.len() implies keyed_has(
                                em,
                                #[trigger] self.schema_map@[i].0,
                            ) by {
                                assert(keyed_has(pre.entid_map@, self.schema_map@[i].0));
                                if self.schema_map@[i].0 != e {
                                    assert(keyed_has(em, self.schema_map@[i].0));
                                }
                            }
                        }
                        Ok(())
                    },
                }
            },
        }
    }
}

} // verus!

verus! {

use crate::metadata::AttributeAlteration;

impl AttributeBuilder {
    /// The alterations [`AttributeBuilder::mutate`] reports: one entry, in a
    /// fixed order, for each flag the builder sets to a new value.
    pub open spec fn spec_alterations(self, a: Attribute) -> Seq<AttributeAlteration> {
        let s0 = Seq::<AttributeAlteration>::empty();
        let s1 = if self.multival is Some && self.multival->0 != a.multival {
            s0.push(AttributeAlteration::Cardinality)
        } else {
            s0
        };
        let s2 = if self.unique_value is Some && self.unique_value->0 != a.unique_value {
            s1.push(AttributeAlteration::UniqueValue)
        } else {
            s1
        };
        let s3 = if self.unique_identity is Some && self.unique_identity->0 != a.unique_identity {
            s2.push(AttributeAlteration::UniqueIdentity)
        } else {
            s2
        };
        let s4 = if self.index is Some && self.index->0 != a.index {
            s3.push(AttributeAlteration::Index)
        } else {
            s3
        };
        let s5 = if self.component is Some && self.component->0 != a.component {
            s4.push(AttributeAlteration::IsComponent)
        } else {
            s4
        };
        if self.no_history is Some && self.no_history->0 != a.no_history {
            s5.push(AttributeAlteration::NoHistory)
        } else {
            s5
        }
    }

    /// Alter an existing attribute in place, reporting which flags changed.
    /// The value type and the fulltext flag are never altered.
    #[verifier::rlimit(100)]
    #[verifier::spinoff_prover]
    pub fn mutate(&self, attribute: &mut Attribute) -> (alterations: Vec<AttributeAlteration>)
        ensures
            *final(attribute) == self.spec_mutate(*old(attribute)),
            alterations@ == self.spec_alterations(*old(attribute)),
    {
        let a0 = *attribute;
        let mut alterations: Vec<AttributeAlteration> = Vec::new();
        match self.multival {
            Some(x) => {
                if x != attribute.multival {
                    attribute.multival = x;
                    alterations.push(AttributeAlteration::Cardinality);
                }
            },
            None => {},
        }
        match self.unique_value {
            Some(x) => {
                if x != attribute.unique_value {
                    attribute.unique_value = x;
                    alterations.push(AttributeAlteration::UniqueValue);
                }
            },
            None => {},
        }
        match self.unique_identity {
            Some(x) => {
                if x != attribute.unique_identity {
                    attribute.unique_identity = x;
                    alterations.push(AttributeAlteration::UniqueIdentity);
                }
            },
            None => {},
        }
        match self.index {
            Some(x) => {
                if x != attribute.index {
                    attribute.index = x;
                    alterations.push(AttributeAlteration::Index);
                }
            },
            None => {},
        }
        match self.component {
            Some(x) => {
                if x != attribute.component {
                    attribute.component = x;
                    alterations.push(AttributeAlteration::IsComponent);
                }
            },
            None => {},
        }
        match self.no_history {
            Some(x) => {
                if x != attribute.no_history {
                    attribute.no_history = x;
                    alterations.push(AttributeAlteration::NoHistory);
                }
            },
            None => {},
        }
        alterations
    }
}

} // verus!
