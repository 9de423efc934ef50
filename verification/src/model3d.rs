//! The index of imported 3D models and the changes made to it.
use vstd::prelude::*;
use crate::keyed::{StringMap, assoc_insert, lemma_filter_push};
use crate::text::str_eq;

verus! {

/// An imported model: its files and its motions (motion name to file path).
pub struct Model3DInfo {
    pub id: String,
    pub name: String,
    pub pmx_path: String,
    pub motions: StringMap,
    pub added_at: String,
}

/// Models kept when the model `id` is removed.
pub open spec fn without_model(models: Seq<Model3DInfo>, id: Seq<char>) -> Seq<Model3DInfo> {
    models.filter(|m: Model3DInfo| m.id@ != id)
}

/// Position of the first model with the id, or -1.
pub open spec fn model_index(models: Seq<Model3DInfo>, id: Seq<char>) -> int
    decreases models.len(),
{
    if models.len() == 0 {
        -1
    } else {
        let r = model_index(models.drop_last(), id);
        if r >= 0 {
            r
        } else if models.last().id@ == id {
            models.len() - 1
        } else {
            -1
        }
    }
}

proof fn lemma_model_index(models: Seq<Model3DInfo>, id: Seq<char>, i: int)
    requires
        0 <= i <= models.len(),
        forall|j: int| 0 <= j < i ==> (#[trigger] models[j]).id@ != id,
    ensures
        model_index(models.take(i), id) == -1,
        i < models.len() && models[i].id@ == id ==> model_index(models.take(i + 1), id) == i,
    decreases i,
{
    if i > 0 {
        lemma_model_index(models, id, i - 1);
        assert(models.take(i).drop_last() =~= models.take(i - 1));
    }
    if i < models.len() {
        assert(models.take(i + 1).drop_last() =~= models.take(i));
    }
}

/// Removes every model with the id from the index.
pub fn remove_model(models: &mut Vec<Model3DInfo>, id: &str)
    ensures
        final(models)@ == without_model(old(models)@, id@),
{
    let ghost all = models@;
    let ghost pred = |m: Model3DInfo| m.id@ != id@;
    let mut rest: Vec<Model3DInfo> = Vec::new();
    std::mem::swap(&mut rest, models);
    let mut kept: Vec<Model3DInfo> = Vec::new();
    let ghost mut i: int = 0;
    assert(all.take(0).filter(pred) =~= Seq::<Model3DInfo>::empty());
    while rest.len() > 0
        invariant
            0 <= i <= all.len(),
            rest@ == all.skip(i),
            kept@ == all.take(i).filter(pred),
            pred == (|m: Model3DInfo| m.id@ != id@),
        decreases rest.len(),
    {
        let m = rest.remove(0);
        proof {
            assert(all.take(i + 1) =~= all.take(i).push(m));
            lemma_filter_push(all.take(i), pred, m);
            assert(all.skip(i + 1) =~= all.skip(i).skip(1));
        }
        if !str_eq(m.id.as_str(), id) {
            kept.push(m);
        }
        proof {
            i = i + 1;
        }
    }
    assert(all.take(i) =~= all);
    *models = kept;
}

/// Records a motion file for the first model with the id (the motion name set to the
/// path); other models, and the index when no model has the id, are unchanged.
pub fn add_motion(models: &mut Vec<Model3DInfo>, model_id: &str, motion_name: String, path: String)
    ensures
        final(models)@.len() == old(models)@.len(),
        forall|j: int|
            0 <= j < old(models)@.len() && j != model_index(old(models)@, model_id@)
                ==> #[trigger] final(models)@[j] == old(models)@[j],
        model_index(old(models)@, model_id@) >= 0 ==> ({
            let k = model_index(old(models)@, model_id@);
            let before = old(models)@[k];
            let after = final(models)@[k];
            &&& after.id == before.id
            &&& after.name == before.name
            &&& after.pmx_path == before.pmx_path
            &&& after.added_at == before.added_at
            &&& after.motions@ == assoc_insert(before.motions@, motion_name, path)
        }),
{
    let ghost all = models@;
    let mut i: usize = 0;
    while i < models.len()
        invariant
            i <= models@.len(),
            models@ == all,
            all == old(models)@,
            forall|j: int| 0 <= j < i ==> (#[trigger] all[j]).id@ != model_id@,
        decreases models.len() - i,
    {
        if str_eq(models[i].id.as_str(), model_id) {
            proof {
                lemma_model_index(all, model_id@, i as int);
                lemma_model_index_prefix(all, model_id@, i + 1, i as int);
            }
            let mut m = models.remove(i);
            m.motions.insert(motion_name, path);
            models.insert(i, m);
            assert(models@ =~= all.update(i as int, m));
            return;
        }
        i = i + 1;
    }
    proof {
        lemma_model_index(all, model_id@, i as int);
        assert(all.take(i as int) =~= all);
    }
}

proof fn lemma_model_index_prefix(models: Seq<Model3DInfo>, id: Seq<char>, i: int, k: int)
    requires
        0 < i <= models.len(),
        k >= 0,
        model_index(models.take(i), id) == k,
    ensures
        model_index(models, id) == k,
    decreases models.len() - i,
{
    if i < models.len() {
        assert(models.take(i + 1).drop_last() =~= models.take(i));
        assert(model_index(models.take(i + 1), id) == k);
        lemma_model_index_prefix(models, id, i + 1, k);
    } else {
        assert(models.take(i) =~= models);
    }
}

} // verus!
