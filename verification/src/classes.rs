//! The table of network classes, indexed by class id.
use vstd::prelude::*;
use ahash::AHashMap;
use crate::decode::{class_info_of, decode_class_info};
use crate::maps::{get_serializer, serializer_entries};
use crate::records::{ClassRecord, ClassRecordView};

verus! {

/// Number of entries in the class table.
pub const CLASS_TABLE_LEN: usize = 560;

/// How the fields of a network class are serialized. Of the serializer that
/// the send tables build, only its name is held here: the class table needs
/// nothing but to find and carry it.
pub struct Serializer {
    pub name: String,
}

impl Clone for Serializer {
    fn clone(&self) -> (r: Self)
        ensures
            r == *self,
    {
        Serializer { name: self.name.clone() }
    }
}

/// A network class: its name and its serializer.
pub struct Class {
    pub name: String,
    pub serializer: Serializer,
}

pub struct ClassView {
    pub name: Seq<char>,
    pub serializer: Serializer,
}

impl View for Class {
    type V = ClassView;

    open spec fn view(&self) -> ClassView {
        ClassView { name: self.name@, serializer: self.serializer }
    }
}

pub open spec fn opt_class_view(c: Option<Class>) -> Option<ClassView> {
    match c {
        Some(x) => Some(x@),
        None => None,
    }
}

/// The id of a class record, 0 where it has none.
pub open spec fn class_id_of(c: ClassRecordView) -> int {
    match c.class_id {
        Some(x) => x as int,
        None => 0,
    }
}

/// The network name of a class record, empty where it has none.
pub open spec fn class_name_of(c: ClassRecordView) -> Seq<char> {
    match c.network_name {
        Some(n) => n,
        None => Seq::empty(),
    }
}

/// Every class has an id inside the table and a name with a serializer.
pub open spec fn classes_fit(cs: Seq<ClassRecordView>, sers: Map<Seq<char>, Serializer>) -> bool {
    forall|i: int|
        0 <= i < cs.len() ==> 0 <= #[trigger] class_id_of(cs[i]) < CLASS_TABLE_LEN
            && sers.dom().contains(class_name_of(cs[i]))
}

/// The table after the classes `cs` were entered in turn: each class stands
/// at its id with its name and the serializer of that name, and a later
/// class replaces an earlier one of the same id.
pub open spec fn class_table(cs: Seq<ClassRecordView>, sers: Map<Seq<char>, Serializer>) -> Seq<Option<ClassView>>
    decreases cs.len(),
{
    if cs.len() == 0 {
        Seq::new(CLASS_TABLE_LEN as nat, |i: int| None)
    } else {
        let c = cs.last();
        class_table(cs.drop_last(), sers).update(
            class_id_of(c),
            Some(ClassView { name: class_name_of(c), serializer: sers[class_name_of(c)] }),
        )
    }
}

/// Enters the classes `classes` in turn into an empty table.
pub fn build_class_table(classes: &Vec<ClassRecord>, serializers: &AHashMap<String, Serializer>) -> (r: Vec<Option<Class>>)
    requires
        classes_fit(classes@.map_values(|c: ClassRecord| c@), serializer_entries(*serializers)),
    ensures
        r@.map_values(|c: Option<Class>| opt_class_view(c))
            == class_table(classes@.map_values(|c: ClassRecord| c@), serializer_entries(*serializers)),
{
    let ghost cs = classes@.map_values(|c: ClassRecord| c@);
    let ghost sers = serializer_entries(*serializers);
    let mut table: Vec<Option<Class>> = Vec::new();
    let mut k: usize = 0;
    while k < CLASS_TABLE_LEN
        invariant
            k <= CLASS_TABLE_LEN,
            table@.len() == k,
            forall|i: int| 0 <= i < k ==> table@[i] is None,
        decreases CLASS_TABLE_LEN - k,
    {
        table.push(None);
        k = k + 1;
    }
    proof {
        assert(table@.map_values(|c: Option<Class>| opt_class_view(c)) =~= class_table(cs.take(0), sers));
    }
    let mut j: usize = 0;
    while j < classes.len()
        invariant
            cs == classes@.map_values(|c: ClassRecord| c@),
            sers == serializer_entries(*serializers),
            classes_fit(cs, sers),
            j <= classes@.len(),
            table@.len() == CLASS_TABLE_LEN,
            table@.map_values(|c: Option<Class>| opt_class_view(c)) == class_table(cs.take(j as int), sers),
        decreases classes@.len() - j,
    {
        let c = &classes[j];
        proof {
            assert(cs[j as int] == c@);
            assert(0 <= class_id_of(cs[j as int]) < CLASS_TABLE_LEN);
        }
        let id: usize = match c.class_id {
            Some(x) => x as usize,
            None => 0,
        };
        let name: String = match &c.network_name {
            Some(n) => n.clone(),
            None => String::new(),
        };
        let ser = match get_serializer(serializers, name.as_str()) {
            Some(s) => s.clone(),
            None => {
                proof {
                    assert(sers.dom().contains(class_name_of(cs[j as int])));
                }
                return table;
            },
        };
        let ghost before = table@.map_values(|c: Option<Class>| opt_class_view(c));
        table.set(id, Some(Class { name, serializer: ser }));
        proof {
            let prefix = cs.take(j as int + 1);
            assert(prefix.drop_last() =~= cs.take(j as int));
            assert(prefix.last() == cs[j as int]);
            assert(table@.map_values(|c: Option<Class>| opt_class_view(c)) =~= before.update(
                id as int,
                Some(ClassView { name: class_name_of(cs[j as int]), serializer: sers[class_name_of(cs[j as int])] }),
            ));
        }
        j = j + 1;
    }
    proof {
        assert(cs.take(classes@.len() as int) =~= cs);
    }
    table
}

/// The table of the classes that a `CDemoClassInfo` lists.
pub open spec fn class_table_of(bytes: Seq<u8>, sers: Map<Seq<char>, Serializer>) -> Seq<Option<ClassView>> {
    class_table(class_info_of(bytes).unwrap(), sers)
}

/// Whether `bytes` decode as a `CDemoClassInfo` whose classes all fit the
/// table and have a serializer in `sers`.
pub open spec fn class_info_fits(bytes: Seq<u8>, sers: Map<Seq<char>, Serializer>) -> bool {
    &&& class_info_of(bytes) is Some
    &&& classes_fit(class_info_of(bytes).unwrap(), sers)
}

/// Tests whether `bytes` decode as a `CDemoClassInfo` whose classes all fit
/// the table and have a serializer in `serializers`.
pub fn check_class_info(bytes: &[u8], serializers: &AHashMap<String, Serializer>) -> (r: bool)
    ensures
        r == class_info_fits(bytes@, serializer_entries(*serializers)),
{
    let classes = match decode_class_info(bytes) {
        Some(c) => c,
        None => return false,
    };
    let ghost cs = classes@.map_values(|c: ClassRecord| c@);
    let ghost sers = serializer_entries(*serializers);
    let mut j: usize = 0;
    while j < classes.len()
        invariant
            cs == classes@.map_values(|c: ClassRecord| c@),
            cs == class_info_of(bytes@).unwrap(),
            class_info_of(bytes@) is Some,
            sers == serializer_entries(*serializers),
            j <= classes@.len(),
            forall|i: int| 0 <= i < j ==> 0 <= #[trigger] class_id_of(cs[i]) < CLASS_TABLE_LEN
                && sers.dom().contains(class_name_of(cs[i])),
        decreases classes@.len() - j,
    {
        let c = &classes[j];
        proof {
            assert(cs[j as int] == c@);
        }
        let id_ok = match c.class_id {
            Some(x) => 0 <= x && x < CLASS_TABLE_LEN as i32,
            None => true,
        };
        if !id_ok {
            proof {
                assert(!(0 <= class_id_of(cs[j as int]) < CLASS_TABLE_LEN));
            }
            return false;
        }
        let empty = String::new();
        let name: &str = match &c.network_name {
            Some(n) => n.as_str(),
            None => empty.as_str(),
        };
        proof {
            assert(name@ == class_name_of(cs[j as int]));
        }
        if get_serializer(serializers, name).is_none() {
            proof {
                assert(!sers.dom().contains(class_name_of(cs[j as int])));
            }
            return false;
        }
        proof {
            assert(0 <= class_id_of(cs[j as int]) < CLASS_TABLE_LEN);
            assert(sers.dom().contains(class_name_of(cs[j as int])));
            assert forall|i: int| 0 <= i < j + 1 implies 0 <= #[trigger] class_id_of(cs[i]) < CLASS_TABLE_LEN
                && sers.dom().contains(class_name_of(cs[i])) by {
                if i == j as int {
                    assert(0 <= class_id_of(cs[j as int]) < CLASS_TABLE_LEN);
                }
            }
        }
        j = j + 1;
    }
    true
}

/// Decodes a `CDemoClassInfo` and enters its classes into a new table.
pub fn class_table_from_message(bytes: &[u8], serializers: &AHashMap<String, Serializer>) -> (r: Vec<Option<Class>>)
    requires
        class_info_fits(bytes@, serializer_entries(*serializers)),
    ensures
        r@.map_values(|c: Option<Class>| opt_class_view(c)) == class_table_of(bytes@, serializer_entries(*serializers)),
{
    match decode_class_info(bytes) {
        Some(classes) => build_class_table(&classes, serializers),
        None => Vec::new(),
    }
}

/// In the class table every id holds the last class of that id, and an id
/// that no class has holds nothing.
pub proof fn lemma_class_table_entry(cs: Seq<ClassRecordView>, sers: Map<Seq<char>, Serializer>, k: int)
    requires
        classes_fit(cs, sers),
        0 <= k < CLASS_TABLE_LEN,
    ensures
        class_table(cs, sers).len() == CLASS_TABLE_LEN,
        (forall|i: int| 0 <= i < cs.len() ==> #[trigger] class_id_of(cs[i]) != k) ==> class_table(cs, sers)[k] is None,
        forall|j: int|
            0 <= j < cs.len() && #[trigger] class_id_of(cs[j]) == k
                && (forall|i: int| j < i < cs.len() ==> #[trigger] class_id_of(cs[i]) != k)
                ==> class_table(cs, sers)[k] == Some(ClassView { name: class_name_of(cs[j]), serializer: sers[class_name_of(cs[j])] }),
    decreases cs.len(),
{
    if cs.len() > 0 {
        let prefix = cs.drop_last();
        assert forall|i: int| 0 <= i < prefix.len() implies 0 <= #[trigger] class_id_of(prefix[i]) < CLASS_TABLE_LEN
            && sers.dom().contains(class_name_of(prefix[i])) by {
            assert(prefix[i] == cs[i]);
        }
        lemma_class_table_entry(prefix, sers, k);
        let last = cs.len() - 1;
        assert(cs[last] == cs.last());
        assert(0 <= class_id_of(cs[last]) < CLASS_TABLE_LEN);
        assert forall|j: int|
            0 <= j < cs.len() && #[trigger] class_id_of(cs[j]) == k
                && (forall|i: int| j < i < cs.len() ==> #[trigger] class_id_of(cs[i]) != k)
                implies class_table(cs, sers)[k] == Some(ClassView { name: class_name_of(cs[j]), serializer: sers[class_name_of(cs[j])] }) by {
            if j < last {
                assert(class_id_of(cs[last]) != k);
                assert(prefix[j] == cs[j]);
                assert forall|i: int| j < i < prefix.len() implies #[trigger] class_id_of(prefix[i]) != k by {
                    assert(prefix[i] == cs[i]);
                }
            }
        }
        if forall|i: int| 0 <= i < cs.len() ==> #[trigger] class_id_of(cs[i]) != k {
            assert forall|i: int| 0 <= i < prefix.len() implies #[trigger] class_id_of(prefix[i]) != k by {
                assert(prefix[i] == cs[i]);
            }
        }
    }
}

/// Whether the class record `c` names slot `k`: its class id is `k`, or it
/// has no class id and `k` is 0.
pub open spec fn names_slot(c: ClassRecordView, k: int) -> bool {
    c.class_id == Some(k as i32) || (k == 0 && c.class_id is None)
}

/// Every class is stored at the slot of its own class id (slot 0 for a
/// class without one), the last class of an id winning, under its network
/// name and with the serializer of that name; a slot that no class names
/// stays empty.
pub proof fn lemma_class_stored_at_its_id(cs: Seq<ClassRecordView>, sers: Map<Seq<char>, Serializer>, k: int)
    requires
        classes_fit(cs, sers),
        0 <= k < CLASS_TABLE_LEN,
    ensures
        class_table(cs, sers).len() == CLASS_TABLE_LEN,
        (forall|i: int| 0 <= i < cs.len() ==> !names_slot(#[trigger] cs[i], k)) ==> class_table(cs, sers)[k] is None,
        forall|j: int|
            0 <= j < cs.len() && names_slot(#[trigger] cs[j], k)
                && (forall|i: int| j < i < cs.len() ==> !names_slot(#[trigger] cs[i], k))
                ==> ({
                    let n = match cs[j].network_name {
                        Some(x) => x,
                        None => Seq::empty(),
                    };
                    class_table(cs, sers)[k] == Some(ClassView { name: n, serializer: sers[n] })
                }),
{
    assert forall|i: int| 0 <= i < cs.len() implies names_slot(#[trigger] cs[i], k) == (class_id_of(cs[i]) == k) by {
        assert(0 <= class_id_of(cs[i]) < CLASS_TABLE_LEN);
    }
    lemma_class_table_entry(cs, sers, k);
    assert forall|j: int|
        0 <= j < cs.len() && names_slot(#[trigger] cs[j], k)
            && (forall|i: int| j < i < cs.len() ==> !names_slot(#[trigger] cs[i], k))
            implies ({
                let n = match cs[j].network_name {
                    Some(x) => x,
                    None => Seq::empty(),
                };
                class_table(cs, sers)[k] == Some(ClassView { name: n, serializer: sers[n] })
            }) by {
        assert(class_id_of(cs[j]) == k);
        assert forall|i: int| j < i < cs.len() implies #[trigger] class_id_of(cs[i]) != k by {
            assert(!names_slot(cs[i], k));
        }
    }
    if forall|i: int| 0 <= i < cs.len() ==> !names_slot(#[trigger] cs[i], k) {
        assert forall|i: int| 0 <= i < cs.len() implies #[trigger] class_id_of(cs[i]) != k by {
            assert(!names_slot(cs[i], k));
        }
    }
}

} // verus!
