use vstd::prelude::*;
use vstd::string::StringSliceAdditionalSpecFns;
use crate::err::CmdErr;
use crate::json::{
    Json, JsonV, jv, jv_seq, jv_entries, obj_get, obj_set, esc_of, ser_of, obj_find,
    lemma_obj_first_match, lemma_obj_no_match, lemma_obj_set_preserves, lemma_jv_seq_len,
    lemma_jv_seq_index, lemma_jv_entries_len, lemma_jv_entries_index, escape_bytes,
    to_pretty_bytes,
};
use crate::parse::{spec_parse_doc, parse_json};
use crate::volume::Volume;
use crate::util::{copy_bytes, lit_bytes};

verus! {

broadcast use vstd::std_specs::vec::group_vec_axioms, vstd::seq::group_seq_axioms;

/// The specification field that carries the container's hostname.
pub open spec fn key_hostname() -> Seq<u8> {
    "hostname".spec_bytes()
}

/// The specification field that carries the mount descriptors.
pub open spec fn key_mounts() -> Seq<u8> {
    "mounts".spec_bytes()
}

/// The mount descriptor for one volume: the canonicalized source, the
/// caller's destination as given, type `bind`, and options `rbind`, `rw`.
pub open spec fn mount_entry_v(src: Seq<u8>, dst: Seq<u8>) -> JsonV {
    JsonV::Obj(
        seq![
            ("source".spec_bytes(), JsonV::Str(esc_of(src))),
            ("destination".spec_bytes(), JsonV::Str(esc_of(dst))),
            ("type".spec_bytes(), JsonV::Str("bind".spec_bytes())),
            (
                "options".spec_bytes(),
                JsonV::Arr(seq![JsonV::Str("rbind".spec_bytes()), JsonV::Str("rw".spec_bytes())]),
            ),
        ],
    )
}

/// The mount descriptors for a list of volumes, in the order given.
pub open spec fn new_mounts(vols: Seq<(Seq<u8>, Seq<u8>)>) -> Seq<JsonV> {
    Seq::new(vols.len(), |i: int| mount_entry_v(vols[i].0, vols[i].1))
}

/// The models of a list of volumes.
pub open spec fn vols_v(vs: Seq<Volume>) -> Seq<(Seq<u8>, Seq<u8>)> {
    Seq::new(vs.len(), |i: int| vs[i]@)
}

/// The mutated specification document: the hostname field replaced by the
/// identity, then the requested mount descriptors appended to the mounts
/// field, everything else untouched. `None` when the document is not a
/// mapping, has no hostname field, or has no mounts sequence.
pub open spec fn spec_mutate(doc: JsonV, id: Seq<u8>, vols: Seq<(Seq<u8>, Seq<u8>)>) -> Option<
    JsonV,
> {
    match doc {
        JsonV::Obj(es) => {
            if obj_get(es, key_hostname()) is None {
                None
            } else {
                let es1 = obj_set(es, key_hostname(), JsonV::Str(id));
                match obj_get(es1, key_mounts()) {
                    Some(JsonV::Arr(items)) => Some(
                        JsonV::Obj(obj_set(es1, key_mounts(), JsonV::Arr(items + new_mounts(vols)))),
                    ),
                    _ => None,
                }
            }
        },
        _ => None,
    }
}

/// The shape the mutator needs: a mapping with a hostname field and a
/// mounts sequence.
pub open spec fn has_mutable_shape(doc: JsonV) -> bool {
    &&& doc is Obj
    &&& obj_get(doc->Obj_0, key_hostname()) is Some
    &&& (obj_get(doc->Obj_0, key_mounts()) matches Some(JsonV::Arr(_)))
}

/// Mutation succeeds exactly on documents of the mutable shape, whatever the
/// identity and volumes.
pub proof fn lemma_mutate_defined(doc: JsonV, id: Seq<u8>, vols: Seq<(Seq<u8>, Seq<u8>)>)
    ensures
        spec_mutate(doc, id, vols) is Some <==> has_mutable_shape(doc),
{
    lemma_keys_distinct();
    if doc is Obj {
        let es = doc->Obj_0;
        if obj_get(es, key_hostname()) is Some {
            lemma_obj_set_preserves(es, key_hostname(), JsonV::Str(id));
        }
    }
}

/// Checks that a parsed document has the shape the mutator needs, without
/// touching it; a missing hostname field or a missing or ill-shaped mounts
/// field is the internal bundle-spec error.
pub fn check_spec_shape(doc: &Json) -> (r: Result<(), CmdErr>)
    ensures
        r is Ok <==> has_mutable_shape(doc@),
        r matches Err(e) ==> e.kind is Internal && e.message@
            == "Internal error: invalid bundle spec"@ && e.secondary is None,
{
    match doc {
        Json::Obj(entries) => {
            let ghost es0 = jv_entries(entries@);
            let hk = lit_bytes("hostname");
            let hostname_ok = match obj_find(entries, &hk) {
                Some(hi) => {
                    proof {
                        lemma_jv_entries_len(entries@);
                        assert forall|j: int| 0 <= j < hi implies es0[j].0 != key_hostname() by {
                            lemma_jv_entries_index(entries@, j);
                        }
                        lemma_jv_entries_index(entries@, hi as int);
                        lemma_obj_first_match(es0, key_hostname(), JsonV::Null, hi as int);
                    }
                    true
                },
                None => {
                    proof {
                        lemma_jv_entries_len(entries@);
                        assert forall|j: int| 0 <= j < es0.len() implies es0[j].0
                            != key_hostname() by {
                            lemma_jv_entries_index(entries@, j);
                        }
                        lemma_obj_no_match(es0, key_hostname());
                    }
                    false
                },
            };
            let mk = lit_bytes("mounts");
            let mounts_ok = match obj_find(entries, &mk) {
                Some(mi) => {
                    proof {
                        lemma_jv_entries_len(entries@);
                        assert forall|j: int| 0 <= j < mi implies es0[j].0 != key_mounts() by {
                            lemma_jv_entries_index(entries@, j);
                        }
                        lemma_jv_entries_index(entries@, mi as int);
                        lemma_obj_first_match(es0, key_mounts(), JsonV::Null, mi as int);
                    }
                    match &entries[mi].1 {
                        Json::Arr(_) => true,
                        _ => false,
                    }
                },
                None => {
                    proof {
                        lemma_jv_entries_len(entries@);
                        assert forall|j: int| 0 <= j < es0.len() implies es0[j].0
                            != key_mounts() by {
                            lemma_jv_entries_index(entries@, j);
                        }
                        lemma_obj_no_match(es0, key_mounts());
                    }
                    false
                },
            };
            if hostname_ok && mounts_ok {
                Ok(())
            } else {
                Err(CmdErr::internal("Internal error: invalid bundle spec"))
            }
        },
        _ => Err(CmdErr::internal("Internal error: invalid bundle spec")),
    }
}

/// The two touched keys are distinct byte strings.
proof fn lemma_keys_distinct()
    ensures
        key_hostname() != key_mounts(),
{
    reveal_strlit("hostname");
    reveal_strlit("mounts");
    vstd::string::is_ascii_spec_bytes("hostname");
    vstd::string::is_ascii_spec_bytes("mounts");
    assert(vstd::string::is_ascii("hostname"));
    assert(vstd::string::is_ascii("mounts"));
    assert(key_hostname().len() == 8);
    assert(key_mounts().len() == 6);
}

/// The model of an in-place entry replacement.
proof fn lemma_jv_entries_update(s: Seq<(Vec<u8>, Json)>, i: int, e: (Vec<u8>, Json))
    requires
        0 <= i < s.len(),
    ensures
        jv_entries(s.update(i, e)) =~= jv_entries(s).update(i, (e.0@, jv(e.1))),
{
    let u = s.update(i, e);
    lemma_jv_entries_len(u);
    lemma_jv_entries_len(s);
    assert forall|j: int| 0 <= j < s.len() implies jv_entries(u)[j] == jv_entries(s).update(
        i,
        (e.0@, jv(e.1)),
    )[j] by {
        lemma_jv_entries_index(u, j);
        lemma_jv_entries_index(s, j);
    }
}

/// The model of an element appended at the back.
proof fn lemma_jv_seq_snoc(s: Seq<Json>, x: Json)
    ensures
        jv_seq(s.push(x)) =~= jv_seq(s).push(jv(x)),
{
    let p = s.push(x);
    lemma_jv_seq_len(p);
    lemma_jv_seq_len(s);
    assert forall|j: int| 0 <= j < p.len() implies jv_seq(p)[j] == jv_seq(s).push(jv(x))[j] by {
        lemma_jv_seq_index(p, j);
        if j < s.len() {
            lemma_jv_seq_index(s, j);
        }
    }
}

/// Builds the mount descriptor for one volume, its source already
/// canonicalized; the stored strings carry properly escaped path bytes.
pub fn mount_entry(src: &Vec<u8>, dst: &Vec<u8>) -> (r: Json)
    ensures
        jv(r) == mount_entry_v(src@, dst@),
{
    let mut opts: Vec<Json> = Vec::new();
    opts.push(Json::Str(lit_bytes("rbind")));
    opts.push(Json::Str(lit_bytes("rw")));
    let mut es: Vec<(Vec<u8>, Json)> = Vec::new();
    es.push((lit_bytes("source"), Json::Str(escape_bytes(src))));
    es.push((lit_bytes("destination"), Json::Str(escape_bytes(dst))));
    es.push((lit_bytes("type"), Json::Str(lit_bytes("bind"))));
    es.push((lit_bytes("options"), Json::Arr(opts)));
    let r = Json::Obj(es);
    proof {
        let m = mount_entry_v(src@, dst@)->Obj_0;
        lemma_jv_entries_len(es@);
        assert forall|j: int| 0 <= j < 4 implies jv_entries(es@)[j] == m[j] by {
            lemma_jv_entries_index(es@, j);
            if j == 3 {
                lemma_jv_seq_len(opts@);
                lemma_jv_seq_index(opts@, 0);
                lemma_jv_seq_index(opts@, 1);
                assert(jv_seq(opts@) =~= seq![
                    JsonV::Str("rbind".spec_bytes()),
                    JsonV::Str("rw".spec_bytes()),
                ]);
            }
        }
        assert(jv_entries(es@) =~= m);
    }
    r
}

/// Rewrites a parsed specification document: replaces the hostname field
/// with the identity and appends one `bind` mount descriptor per volume to
/// the mounts sequence, preserving every other field. A document without a
/// hostname field or without a mounts sequence is an internal error: the
/// bundle's spec comes from a trusted unpack step.
#[verifier::rlimit(100)]
pub fn mutate_doc(doc: Json, identity: &Vec<u8>, volumes: &Vec<Volume>) -> (r: Result<
    Json,
    CmdErr,
>)
    ensures
        (match spec_mutate(doc@, identity@, vols_v(volumes@)) {
            Some(m) => r matches Ok(out) && out@ == m,
            None => (r matches Err(e) && e.kind is Internal && e.message@
                == "Internal error: invalid bundle spec"@ && e.secondary is None),
        }),
{
    match doc {
        Json::Obj(mut entries) => {
            let ghost es0 = jv_entries(entries@);
            let hk = lit_bytes("hostname");
            match obj_find(&entries, &hk) {
                None => {
                    proof {
                        lemma_jv_entries_len(entries@);
                        assert forall|j: int| 0 <= j < es0.len() implies es0[j].0
                            != key_hostname() by {
                            lemma_jv_entries_index(entries@, j);
                        }
                        lemma_obj_no_match(es0, key_hostname());
                    }
                    Err(CmdErr::internal("Internal error: invalid bundle spec"))
                },
                Some(hi) => {
                    let ghost entries_before = entries@;
                    let he = (hk, Json::Str(copy_bytes(identity)));
                    let ghost he_g = he;
                    let _removed = entries.remove(hi);
                    entries.insert(hi, he);
                    proof {
                        lemma_jv_entries_len(entries_before);
                        assert(entries@ =~= entries_before.update(hi as int, he_g));
                        assert forall|j: int| 0 <= j < hi implies es0[j].0 != key_hostname() by {
                            lemma_jv_entries_index(entries_before, j);
                        }
                        lemma_jv_entries_index(entries_before, hi as int);
                        lemma_obj_first_match(
                            es0,
                            key_hostname(),
                            JsonV::Str(identity@),
                            hi as int,
                        );
                        lemma_jv_entries_update(entries_before, hi as int, he_g);
                        assert(jv_entries(entries@) =~= obj_set(
                            es0,
                            key_hostname(),
                            JsonV::Str(identity@),
                        ));
                    }
                    let ghost es1 = obj_set(es0, key_hostname(), JsonV::Str(identity@));
                    let mk = lit_bytes("mounts");
                    match obj_find(&entries, &mk) {
                        None => {
                            proof {
                                lemma_jv_entries_len(entries@);
                                assert forall|j: int| 0 <= j < es1.len() implies es1[j].0
                                    != key_mounts() by {
                                    lemma_jv_entries_index(entries@, j);
                                }
                                lemma_obj_no_match(es1, key_mounts());
                            }
                            Err(CmdErr::internal("Internal error: invalid bundle spec"))
                        },
                        Some(mi) => {
                            let ghost entries_mid = entries@;
                            proof {
                                lemma_jv_entries_len(entries_mid);
                                assert forall|j: int| 0 <= j < mi implies es1[j].0
                                    != key_mounts() by {
                                    lemma_jv_entries_index(entries_mid, j);
                                }
                                lemma_jv_entries_index(entries_mid, mi as int);
                            }
                            let removed = entries.remove(mi);
                            let mkey = removed.0;
                            match removed.1 {
                                Json::Arr(mut items) => {
                                    proof {
                                        lemma_obj_first_match(
                                            es1,
                                            key_mounts(),
                                            JsonV::Arr(
                                                jv_seq(items@) + new_mounts(vols_v(volumes@)),
                                            ),
                                            mi as int,
                                        );
                                        assert(obj_get(es1, key_mounts()) == Some(
                                            JsonV::Arr(jv_seq(items@)),
                                        ));
                                    }
                                    let ghost items0 = jv_seq(items@);
                                    let n = volumes.len();
                                    let mut vi: usize = 0;
                                    while vi < n
                                        invariant
                                            n == volumes@.len(),
                                            vi <= n,
                                            jv_seq(items@) =~= items0 + new_mounts(
                                                vols_v(volumes@),
                                            ).take(vi as int),
                                        decreases n - vi,
                                    {
                                        let ghost items_prev = items@;
                                        let vol = &volumes[vi];
                                        let me = mount_entry(&vol.source, &vol.destination);
                                        let ghost me_g = me;
                                        items.push(me);
                                        proof {
                                            lemma_jv_seq_snoc(items_prev, me_g);
                                            assert(jv_seq(items@) =~= items0 + new_mounts(
                                                vols_v(volumes@),
                                            ).take(vi as int + 1));
                                        }
                                        vi = vi + 1;
                                    }
                                    proof {
                                        assert(new_mounts(vols_v(volumes@)).take(n as int)
                                            =~= new_mounts(vols_v(volumes@)));
                                    }
                                    let ghost entries_after_remove = entries@;
                                    let ne = (mkey, Json::Arr(items));
                                    let ghost ne_g = ne;
                                    entries.insert(mi, ne);
                                    proof {
                                        assert(entries@ =~= entries_mid.update(mi as int, ne_g));
                                        lemma_jv_entries_update(entries_mid, mi as int, ne_g);
                                        assert(jv_entries(entries@) =~= obj_set(
                                            es1,
                                            key_mounts(),
                                            JsonV::Arr(items0 + new_mounts(vols_v(volumes@))),
                                        ));
                                    }
                                    Ok(Json::Obj(entries))
                                },
                                other => {
                                    proof {
                                        lemma_obj_first_match(
                                            es1,
                                            key_mounts(),
                                            JsonV::Null,
                                            mi as int,
                                        );
                                        assert(obj_get(es1, key_mounts()) == Some(jv(other)));
                                        assert(!(jv(other) is Arr));
                                    }
                                    Err(CmdErr::internal("Internal error: invalid bundle spec"))
                                },
                            }
                        },
                    }
                },
            }
        },
        _ => Err(CmdErr::internal("Internal error: invalid bundle spec")),
    }
}

/// The whole Spec Mutator on document text: parse, rewrite the hostname and
/// mounts fields, and pretty-print the result. The result is exactly the
/// serialized mutated document; parse and shape failures are the internal
/// bundle-spec error.
pub fn mutate_spec_text(text: &Vec<u8>, identity: &Vec<u8>, volumes: &Vec<Volume>) -> (r: Result<
    Vec<u8>,
    CmdErr,
>)
    ensures
        (match spec_parse_doc(text@) {
            None => r is Err,
            Some(d) => match spec_mutate(d, identity@, vols_v(volumes@)) {
                None => r is Err,
                Some(m) => r matches Ok(out) && out@ == ser_of(m, Seq::empty()),
            },
        }),
        r matches Err(e) ==> e.kind is Internal && e.message@
            == "Internal error: invalid bundle spec"@ && e.secondary is None,
{
    let doc = match parse_json(text) {
        Ok(d) => d,
        Err(e) => {
            return Err(e);
        },
    };
    let m = match mutate_doc(doc, identity, volumes) {
        Ok(m) => m,
        Err(e) => {
            return Err(e);
        },
    };
    Ok(to_pretty_bytes(&m))
}

/// The mutation law: on any document it accepts, the rewrite keeps the entry
/// count, sets the hostname field to exactly the identity, appends exactly
/// the requested mount descriptors in order to the mounts sequence, and
/// leaves the value under every other key untouched.
pub proof fn lemma_mutate_fields(doc: JsonV, id: Seq<u8>, vols: Seq<(Seq<u8>, Seq<u8>)>)
    requires
        spec_mutate(doc, id, vols) is Some,
    ensures
        ({
            let m = spec_mutate(doc, id, vols)->Some_0;
            &&& doc matches JsonV::Obj(es)
            &&& m matches JsonV::Obj(ms)
            &&& ms.len() == es.len()
            &&& obj_get(ms, key_hostname()) == Some(JsonV::Str(id))
            &&& (obj_get(es, key_mounts()) matches Some(JsonV::Arr(items)) && obj_get(
                ms,
                key_mounts(),
            ) == Some(JsonV::Arr(items + new_mounts(vols))))
            &&& forall|k2: Seq<u8>|
                k2 != key_hostname() && k2 != key_mounts() ==> obj_get(ms, k2) == obj_get(es, k2)
        }),
{
    lemma_keys_distinct();
    let es = doc->Obj_0;
    let es1 = obj_set(es, key_hostname(), JsonV::Str(id));
    lemma_obj_set_preserves(es, key_hostname(), JsonV::Str(id));
    let items = obj_get(es1, key_mounts())->Some_0->Arr_0;
    lemma_obj_set_preserves(es1, key_mounts(), JsonV::Arr(items + new_mounts(vols)));
}

} // verus!
