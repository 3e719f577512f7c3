//! Font defaults: the bundled font, the caller's fonts and the default
//! family are registered with the font collection, and the generic CSS
//! families (and Latin fallback) are pointed at the chosen family.
use vstd::prelude::*;

use parley::fontique::{Collection, FallbackKey, FamilyId, Script};

use crate::error::RenderError;

verus! {

#[verifier::external_type_specification]
#[verifier::external_body]
pub struct ExCollection(parley::fontique::Collection);

#[verifier::external_type_specification]
#[verifier::external_body]
pub struct ExFamilyId(parley::fontique::FamilyId);

#[verifier::external_type_specification]
#[verifier::external_body]
pub struct ExScript(parley::fontique::Script);

#[verifier::external_type_specification]
#[verifier::external_body]
pub struct ExFallbackKey(parley::fontique::FallbackKey);

/// The CSS generic families that the default family stands in for.
#[derive(Debug, Clone, Copy, PartialEq, Eq, Structural)]
pub enum GenericSlot {
    Serif,
    SansSerif,
    Monospace,
    SystemUi,
}

/// A script tag as `Script`'s `FromStr` accepts it: four ASCII letters.
pub open spec fn valid_script_tag(tag: Seq<char>) -> bool {
    tag.len() == 4 && forall|i: int| 0 <= i < 4 ==> ('a' <= #[trigger] tag[i] <= 'z' || 'A' <= tag[i] <= 'Z')
}

/// An ASCII letter in upper case; any other char unchanged.
pub open spec fn upper_ascii(c: char) -> char {
    if 'a' <= c <= 'z' {
        ((c as u32) - 32) as char
    } else {
        c
    }
}

/// An ASCII letter in lower case; any other char unchanged.
pub open spec fn lower_ascii(c: char) -> char {
    if 'A' <= c <= 'Z' {
        ((c as u32) + 32) as char
    } else {
        c
    }
}

/// A four-letter script tag as `Script` stores it: the first letter upper
/// case, the others lower case.
pub open spec fn script_case(tag: Seq<char>) -> Seq<char> {
    seq![upper_ascii(tag[0]), lower_ascii(tag[1]), lower_ascii(tag[2]), lower_ascii(tag[3])]
}

/// The index that fontique's generic-family table keeps a slot's list under
/// (`GenericFamily`'s discriminant).
pub open spec fn slot_index(slot: GenericSlot) -> u8 {
    match slot {
        GenericSlot::Serif => 0,
        GenericSlot::SansSerif => 1,
        GenericSlot::Monospace => 2,
        GenericSlot::SystemUi => 5,
    }
}

/// The key of the Latin fallback list: script `Latn`, no locale.
pub open spec fn latin_key() -> (Seq<char>, Option<Seq<char>>) {
    (seq!['L', 'a', 't', 'n'], None)
}

/// The collection's own generic-family table: the list of each generic
/// family, by the family's discriminant.
pub uninterp spec fn generic_family_table(collection: Collection) -> Map<u8, Seq<FamilyId>>;

/// The collection's own fallback table: the list set for a script (by its
/// four-letter tag as `Script` stores it) and a locale (`None` for the
/// script's default list).
pub uninterp spec fn fallback_table(collection: Collection) -> Map<(Seq<char>, Option<Seq<char>>), Seq<FamilyId>>;

/// Whether the collection was made shared (`CollectionOptions::shared` or
/// `make_shared`). A shared collection keeps its tables behind a lock that
/// every copy of it writes; the contracts here say nothing of its tables.
pub uninterp spec fn collection_shared(collection: Collection) -> bool;

/// What `Collection::family_id` answers for the name: the collection's own
/// registered families first, then the system fonts it scanned when it was
/// made. A function of the collection and the name.
pub uninterp spec fn family_lookup(collection: Collection, name: Seq<char>) -> Option<FamilyId>;

/// The fonts that fontique's scan finds in the bytes and can describe
/// (`FontInfo::from_font_ref` succeeds), in order, each with its own family
/// name (the typographic family name, else the family name) where it has a
/// non-empty one. A function of the bytes alone.
pub uninterp spec fn blob_fonts(data: Seq<u8>) -> Seq<Option<Seq<char>>>;

/// One of the blob's fonts carries this family name.
pub open spec fn blob_names_family(data: Seq<u8>, name: Seq<char>) -> bool {
    exists|i: int| 0 <= i < blob_fonts(data).len() && blob_fonts(data)[i] == Some(name)
}

/// Every name the first collection finds, the second finds too.
pub open spec fn keeps_found(before: Collection, after: Collection) -> bool {
    forall|n: Seq<char>| #[trigger] family_lookup(before, n) is Some ==> family_lookup(after, n) is Some
}

/// Every name is looked up in the two collections alike.
pub open spec fn same_lookups(a: Collection, b: Collection) -> bool {
    forall|n: Seq<char>| #[trigger] family_lookup(a, n) == family_lookup(b, n)
}

/// The generic table with the four slots' lists set to `ids`.
pub open spec fn with_generic_defaults(t: Map<u8, Seq<FamilyId>>, ids: Seq<FamilyId>) -> Map<u8, Seq<FamilyId>> {
    t.insert(0, ids).insert(1, ids).insert(2, ids).insert(5, ids)
}

/// `after` is `before` with the four generic slots and the Latin fallback
/// set to `ids`: every other generic and fallback list, and every lookup,
/// as it was.
pub open spec fn defaults_set(before: Collection, after: Collection, ids: Seq<FamilyId>) -> bool {
    &&& generic_family_table(after) == with_generic_defaults(generic_family_table(before), ids)
    &&& fallback_table(after) == fallback_table(before).insert(latin_key(), ids)
    &&& same_lookups(after, before)
}

/// The tables of `after` are those of `before` with the four generic slots
/// and the Latin fallback set to `ids`; every other list as it was.
pub open spec fn tables_defaulted(before: Collection, after: Collection, ids: Seq<FamilyId>) -> bool {
    &&& generic_family_table(after) == with_generic_defaults(generic_family_table(before), ids)
    &&& fallback_table(after) == fallback_table(before).insert(latin_key(), ids)
}

/// The tables of the two collections are alike.
pub open spec fn same_tables(a: Collection, b: Collection) -> bool {
    &&& generic_family_table(a) == generic_family_table(b)
    &&& fallback_table(a) == fallback_table(b)
}

/// The four generic families and the Latin fallback all list `ids`.
pub open spec fn defaults_are(collection: Collection, ids: Seq<FamilyId>) -> bool {
    &&& forall|slot: GenericSlot| #[trigger] generic_family_table(collection).contains_key(slot_index(slot))
        && generic_family_table(collection)[slot_index(slot)] == ids
    &&& fallback_table(collection).contains_key(latin_key()) && fallback_table(collection)[latin_key()] == ids
}

/// Setting the defaults to `ids` makes them `ids`.
pub proof fn lemma_defaults_set_are(before: Collection, after: Collection, ids: Seq<FamilyId>)
    requires
        defaults_set(before, after, ids),
    ensures
        defaults_are(after, ids),
{
    assert forall|slot: GenericSlot| #[trigger] generic_family_table(after).contains_key(slot_index(slot))
        && generic_family_table(after)[slot_index(slot)] == ids by {
        match slot {
            GenericSlot::Serif => {},
            GenericSlot::SansSerif => {},
            GenericSlot::Monospace => {},
            GenericSlot::SystemUi => {},
        }
    }
}

/// The table with the slots' lists set to `ids`, in order.
pub open spec fn with_slots(t: Map<u8, Seq<FamilyId>>, slots: Seq<GenericSlot>, ids: Seq<FamilyId>) -> Map<
    u8,
    Seq<FamilyId>,
>
    decreases slots.len(),
{
    if slots.len() == 0 {
        t
    } else {
        with_slots(t, slots.drop_last(), ids).insert(slot_index(slots.last()), ids)
    }
}

/// A parsed script with its tag.
struct KnownScript {
    script: Script,
    tag: Ghost<Seq<char>>,
}

/// A fallback key for a script with no locale, with the script's tag.
struct LocalelessKey {
    key: FallbackKey,
    tag: Ghost<Seq<char>>,
}

/// `<Script as FromStr>::from_str`, its error dropped: trusted to succeed
/// exactly on four ASCII letters, which its source checks, and to store them
/// first letter upper case, the rest lower case.
#[verifier::external_body]
fn parse_script(tag: &str) -> (res: Option<KnownScript>)
    ensures
        res is Some <==> valid_script_tag(tag@),
        res matches Some(s) ==> s.tag@ == script_case(tag@),
{
    match tag.parse::<Script>() {
        Ok(script) => Some(KnownScript { script, tag: Ghost(script_case(tag@)) }),
        Err(_) => None,
    }
}

/// `FallbackKey::new` with no locale: a key for the script alone.
#[verifier::external_body]
fn fallback_key(script: KnownScript) -> (key: LocalelessKey)
    ensures
        key.tag@ == script.tag@,
{
    LocalelessKey { key: FallbackKey::new(script.script, None), tag: script.tag }
}

/// `Collection::set_generic_families`, with the slot converted to fontique's
/// `GenericFamily`: in an unshared collection, the slot's list becomes `ids`
/// (`GenericFamilyMap::set`) and nothing else changes.
#[verifier::external_body]
fn set_generic_families(collection: &mut Collection, slot: GenericSlot, ids: &Vec<FamilyId>)
    ensures
        collection_shared(*final(collection)) == collection_shared(*old(collection)),
        !collection_shared(*old(collection)) ==> {
            &&& generic_family_table(*final(collection)) == generic_family_table(*old(collection)).insert(
                slot_index(slot),
                ids@,
            )
            &&& fallback_table(*final(collection)) == fallback_table(*old(collection))
            &&& same_lookups(*final(collection), *old(collection))
        },
{
    let generic = match slot {
        GenericSlot::Serif => parley::fontique::GenericFamily::Serif,
        GenericSlot::SansSerif => parley::fontique::GenericFamily::SansSerif,
        GenericSlot::Monospace => parley::fontique::GenericFamily::Monospace,
        GenericSlot::SystemUi => parley::fontique::GenericFamily::SystemUi,
    };
    collection.set_generic_families(generic, ids.iter().copied());
}

/// `Collection::set_fallbacks`. A key with no locale is always tracked and
/// default, so the call answers `true`; in an unshared collection the
/// script's default list becomes `ids` and nothing else changes.
#[verifier::external_body]
fn set_fallbacks(collection: &mut Collection, key: LocalelessKey, ids: &Vec<FamilyId>) -> (res: bool)
    ensures
        res,
        collection_shared(*final(collection)) == collection_shared(*old(collection)),
        !collection_shared(*old(collection)) ==> {
            &&& generic_family_table(*final(collection)) == generic_family_table(*old(collection))
            &&& fallback_table(*final(collection)) == fallback_table(*old(collection)).insert(
                (key.tag@, None),
                ids@,
            )
            &&& same_lookups(*final(collection), *old(collection))
        },
{
    collection.set_fallbacks(key.key, ids.iter().copied())
}

/// `Collection::family_id`: in an unshared collection, `family_lookup` of the
/// name, the collection left as it was.
#[verifier::external_body]
fn family_id(collection: &mut Collection, name: &str) -> (res: Option<FamilyId>)
    ensures
        collection_shared(*final(collection)) == collection_shared(*old(collection)),
        !collection_shared(*old(collection)) ==> *final(collection) == *old(collection) && res == family_lookup(
            *old(collection),
            name@,
        ),
{
    collection.family_id(name)
}

/// `Collection::register_fonts`, with the bytes wrapped in a `Blob`, the
/// optional family name put in a `FontInfoOverride`, and the families of the
/// result given by id. The ids are drawn from a process-wide counter. In an
/// unshared collection the generic and fallback tables are left as they
/// were, and names found before are still found (the registered names only
/// grow). With a family name given, every font of `blob_fonts` joins that
/// one family, so there is one id exactly when there is such a font and the
/// name is not empty, and the name then finds it first. With none, each
/// font's own family name is registered, and the name then finds a family.
#[verifier::external_body]
fn register_fonts(collection: &mut Collection, data: Vec<u8>, family_name: Option<&str>) -> (res: Vec<FamilyId>)
    ensures
        collection_shared(*final(collection)) == collection_shared(*old(collection)),
        !collection_shared(*old(collection)) ==> {
            &&& generic_family_table(*final(collection)) == generic_family_table(*old(collection))
            &&& fallback_table(*final(collection)) == fallback_table(*old(collection))
            &&& keeps_found(*old(collection), *final(collection))
        },
        !collection_shared(*old(collection)) ==> (family_name matches Some(n) ==> {
            &&& res@.len() <= 1
            &&& res@.len() == 1 <==> (n@.len() > 0 && blob_fonts(data@).len() > 0)
            &&& res@.len() == 1 ==> family_lookup(*final(collection), n@) == Some(res@[0])
        }),
        !collection_shared(*old(collection)) ==> (family_name is None ==> forall|m: Seq<char>|
            #[trigger] blob_names_family(data@, m) ==> family_lookup(*final(collection), m) is Some),
{
    let blob = parley::fontique::Blob::new(std::sync::Arc::new(data));
    let info = family_name.map(|name| parley::fontique::FontInfoOverride { family_name: Some(name), ..Default::default() });
    collection.register_fonts(blob, info).into_iter().map(|(id, _)| id).collect()
}

/// The generic families that the default family stands in for.
pub fn generic_slots() -> (v: Vec<GenericSlot>)
    ensures
        v@ == seq![GenericSlot::Serif, GenericSlot::SansSerif, GenericSlot::Monospace, GenericSlot::SystemUi],
{
    let v = vec![GenericSlot::Serif, GenericSlot::SansSerif, GenericSlot::Monospace, GenericSlot::SystemUi];
    assert(v@ =~= seq![GenericSlot::Serif, GenericSlot::SansSerif, GenericSlot::Monospace, GenericSlot::SystemUi]);
    v
}

/// Makes the given families the ones behind `serif`, `sans-serif`,
/// `monospace` and `system-ui`, and the fallback for Latin script.
pub fn set_default_ids(collection: &mut Collection, ids: &Vec<FamilyId>)
    ensures
        collection_shared(*final(collection)) == collection_shared(*old(collection)),
        !collection_shared(*old(collection)) ==> defaults_set(*old(collection), *final(collection), ids@),
{
    let ghost start = *collection;
    let slots = generic_slots();
    for i in 0..slots.len()
        invariant
            slots@ == seq![GenericSlot::Serif, GenericSlot::SansSerif, GenericSlot::Monospace, GenericSlot::SystemUi],
            collection_shared(*collection) == collection_shared(start),
            !collection_shared(start) ==> {
                &&& generic_family_table(*collection) == with_slots(
                    generic_family_table(start),
                    slots@.take(i as int),
                    ids@,
                )
                &&& fallback_table(*collection) == fallback_table(start)
                &&& same_lookups(*collection, start)
            },
    {
        proof {
            assert(slots@.take(i + 1).drop_last() =~= slots@.take(i as int));
        }
        set_generic_families(collection, slots[i], ids);
    }
    proof {
        reveal_strlit("Latn");
    }
    match parse_script("Latn") {
        Some(latin) => {
            assert(latin.tag@ == seq!['L', 'a', 't', 'n']);
            let _ = set_fallbacks(collection, fallback_key(latin), ids);
        },
        None => {
            assert(false);
        },
    }
    proof {
        if !collection_shared(start) {
            let s = slots@;
            assert(s.take(4) =~= s);
            assert(s.take(3) =~= s.take(4).drop_last());
            assert(s.take(2) =~= s.take(3).drop_last());
            assert(s.take(1) =~= s.take(2).drop_last());
            assert(s.take(0) =~= s.take(1).drop_last());
            reveal_with_fuel(with_slots, 5);
            assert(with_slots(generic_family_table(start), s, ids@) == with_generic_defaults(
                generic_family_table(start),
                ids@,
            ));
        }
    }
}

/// Makes the family the lookup found the default (see `set_default_ids`),
/// when it found one; says whether it did. Nothing changes when it did not.
pub fn apply_found_family(collection: &mut Collection, found: Option<FamilyId>) -> (res: bool)
    ensures
        res == found is Some,
        collection_shared(*final(collection)) == collection_shared(*old(collection)),
        found is None ==> *final(collection) == *old(collection),
        !collection_shared(*old(collection)) ==> (found matches Some(id) ==> defaults_set(
            *old(collection),
            *final(collection),
            seq![id],
        )),
{
    match found {
        None => false,
        Some(id) => {
            let ids = vec![id];
            assert(ids@ =~= seq![id]);
            set_default_ids(collection, &ids);
            true
        },
    }
}

/// Makes the named family the default (see `set_default_ids`), when the
/// collection knows it; says whether it did.
pub fn set_default_family(collection: &mut Collection, family: &str) -> (res: bool)
    ensures
        collection_shared(*final(collection)) == collection_shared(*old(collection)),
        !collection_shared(*old(collection)) ==> {
            &&& res == family_lookup(*old(collection), family@) is Some
            &&& !res ==> *final(collection) == *old(collection)
            &&& res ==> defaults_set(
                *old(collection),
                *final(collection),
                seq![family_lookup(*old(collection), family@)->0],
            )
        },
{
    let found = family_id(collection, family);
    apply_found_family(collection, found)
}

/// Registers a bundled font under the given family name and makes it the
/// default for the generic families and Latin fallback: when the bytes hold
/// a font (and the name is not empty), the defaults are the family
/// registered, which the name then finds, even where a system font has that
/// name; otherwise the defaults are empty.
pub fn install_default_font(collection: &mut Collection, font: Vec<u8>, family_name: &str)
    ensures
        collection_shared(*final(collection)) == collection_shared(*old(collection)),
        !collection_shared(*old(collection)) ==> {
            &&& (blob_fonts(font@).len() > 0 && family_name@.len() > 0) ==> (family_lookup(
                *final(collection),
                family_name@,
            ) matches Some(id) && defaults_are(*final(collection), seq![id]) && tables_defaulted(
                *old(collection),
                *final(collection),
                seq![id],
            ))
            &&& !(blob_fonts(font@).len() > 0 && family_name@.len() > 0) ==> defaults_are(
                *final(collection),
                Seq::empty(),
            ) && tables_defaulted(*old(collection), *final(collection), Seq::empty())
            &&& keeps_found(*old(collection), *final(collection))
        },
{
    let ghost start = *collection;
    let ghost bytes = font@;
    let ids = register_fonts(collection, font, Some(family_name));
    let ghost registered = *collection;
    set_default_ids(collection, &ids);
    proof {
        if !collection_shared(start) {
            lemma_defaults_set_are(registered, *collection, ids@);
            if ids@.len() == 1 {
                assert(ids@ =~= seq![ids@[0]]);
                assert(family_lookup(*collection, family_name@) == family_lookup(registered, family_name@));
            } else {
                assert(ids@ =~= Seq::<FamilyId>::empty());
            }
            assert forall|n: Seq<char>| #[trigger] family_lookup(start, n) is Some implies family_lookup(
                *collection,
                n,
            ) is Some by {
                assert(family_lookup(registered, n) is Some);
                assert(family_lookup(*collection, n) == family_lookup(registered, n));
            }
        }
    }
}

/// What a default-family request comes to, given whether the lookup found
/// the family: nothing to refuse, or the family refused by name.
pub fn default_family_result(family: String, found: bool) -> (res: Result<(), RenderError>)
    ensures
        res == (if found {
            Ok::<(), RenderError>(())
        } else {
            Err(RenderError::FontFamily(family))
        }),
{
    if found {
        Ok(())
    } else {
        Err(RenderError::FontFamily(family))
    }
}

/// Registers the caller's fonts, then makes `default_font_family` the
/// default when one is given; refuses a family the collection does not know
/// once the fonts are registered. Every family the given fonts name is then
/// found, as is every name found before.
pub fn configure_fonts(collection: &mut Collection, fonts: Vec<Vec<u8>>, default_font_family: Option<String>) -> (res:
    Result<(), RenderError>)
    ensures
        default_font_family is None ==> res is Ok,
        res is Err ==> (default_font_family matches Some(f) && res == Err::<(), RenderError>(RenderError::FontFamily(f))),
        collection_shared(*final(collection)) == collection_shared(*old(collection)),
        !collection_shared(*old(collection)) ==> {
            &&& forall|k: int, m: Seq<char>|
                0 <= k < fonts@.len() && #[trigger] blob_names_family(fonts@[k]@, m) ==> family_lookup(
                    *final(collection),
                    m,
                ) is Some
            &&& keeps_found(*old(collection), *final(collection))
        },
        !collection_shared(*old(collection)) ==> (default_font_family is None ==> same_tables(
            *final(collection),
            *old(collection),
        )),
        !collection_shared(*old(collection)) ==> (default_font_family matches Some(f) ==> {
            &&& res is Ok <==> family_lookup(*final(collection), f@) is Some
            &&& res is Ok ==> defaults_are(*final(collection), seq![family_lookup(*final(collection), f@)->0])
            &&& res is Ok ==> tables_defaulted(
                *old(collection),
                *final(collection),
                seq![family_lookup(*final(collection), f@)->0],
            )
            &&& res is Err ==> same_tables(*final(collection), *old(collection))
        }),
{
    let ghost orig = fonts@;
    let mut fonts = fonts;
    let ghost start = *collection;
    let mut k: usize = fonts.len();
    while k > 0
        invariant
            k == fonts.len(),
            k <= orig.len(),
            fonts@ == orig.subrange(orig.len() - k, orig.len() as int),
            collection_shared(*collection) == collection_shared(start),
            !collection_shared(start) ==> {
                &&& forall|j: int, m: Seq<char>|
                    0 <= j < orig.len() - k && #[trigger] blob_names_family(orig[j]@, m) ==> family_lookup(
                        *collection,
                        m,
                    ) is Some
                &&& keeps_found(start, *collection)
                &&& same_tables(*collection, start)
            },
        decreases k,
    {
        let ghost before = *collection;
        let ghost done: int = orig.len() - k;
        let font = fonts.remove(0);
        proof {
            assert(font == orig[done]);
            assert(fonts@ =~= orig.subrange(done + 1, orig.len() as int));
        }
        let _ = register_fonts(collection, font, None);
        proof {
            if !collection_shared(start) {
                assert forall|j: int, m: Seq<char>|
                    0 <= j < done + 1 && #[trigger] blob_names_family(orig[j]@, m) implies family_lookup(
                        *collection,
                        m,
                    ) is Some by {
                    if j < done {
                        assert(family_lookup(before, m) is Some);
                    }
                }
                assert forall|n: Seq<char>| #[trigger] family_lookup(start, n) is Some implies family_lookup(
                    *collection,
                    n,
                ) is Some by {
                    assert(family_lookup(before, n) is Some);
                }
            }
        }
        k = k - 1;
    }
    let ghost registered = *collection;
    proof {
        assert(orig.len() - k == orig.len());
    }
    match default_font_family {
        None => Ok(()),
        Some(family) => {
            let found = set_default_family(collection, family.as_str());
            proof {
                if !collection_shared(start) {
                    if found {
                        lemma_defaults_set_are(registered, *collection, seq![family_lookup(registered, family@)->0]);
                        assert(family_lookup(*collection, family@) == family_lookup(registered, family@));
                        assert(tables_defaulted(start, *collection, seq![family_lookup(registered, family@)->0]));
                    }
                    assert forall|n: Seq<char>| #[trigger] family_lookup(start, n) is Some implies family_lookup(
                        *collection,
                        n,
                    ) is Some by {
                        assert(family_lookup(registered, n) is Some);
                        if found {
                            assert(family_lookup(*collection, n) == family_lookup(registered, n));
                        }
                    }
                    assert forall|j: int, m: Seq<char>|
                        0 <= j < orig.len() && #[trigger] blob_names_family(orig[j]@, m) implies family_lookup(
                            *collection,
                            m,
                        ) is Some by {
                        assert(family_lookup(registered, m) is Some);
                        if found {
                            assert(family_lookup(*collection, m) == family_lookup(registered, m));
                        }
                    }
                }
            }
            default_family_result(family, found)
        },
    }
}

} // verus!
