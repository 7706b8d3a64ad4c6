use vstd::prelude::*;

verus! {

/// How to read several keys at once.
#[derive(Debug)]
pub enum ReadPlan {
    /// No key: the answer is an empty list, without asking Redis.
    Nothing,
    /// One key: a `GET`, whose answer is the list of its one value.
    Single(String),
    /// Several keys: one `MGET`, whose answer keeps their order.
    Many(Vec<String>),
}

/// How to read `keys`, keeping their order; missing keys come back as `None`.
pub fn read_plan(keys: &Vec<String>) -> (res: ReadPlan)
    ensures
        keys@.len() == 0 ==> res is Nothing,
        keys@.len() == 1 ==> (res matches ReadPlan::Single(k) && k@ == keys@[0]@),
        keys@.len() > 1 ==> (res matches ReadPlan::Many(v) && v@.map_values(|s: String| s@)
            == keys@.map_values(|s: String| s@)),
{
    if keys.len() == 0 {
        ReadPlan::Nothing
    } else if keys.len() == 1 {
        ReadPlan::Single(keys[0].clone())
    } else {
        let mut v: Vec<String> = Vec::new();
        let mut i: usize = 0;
        while i < keys.len()
            invariant
                i <= keys@.len(),
                v@.map_values(|s: String| s@) == keys@.map_values(|s: String| s@).take(i as int),
            decreases keys.len() - i,
        {
            let ghost before = v@;
            v.push(keys[i].clone());
            assert(v@.map_values(|s: String| s@) =~= before.map_values(|s: String| s@).push(
                keys@[i as int]@,
            ));
            assert(v@.map_values(|s: String| s@) =~= keys@.map_values(|s: String| s@).take(i + 1));
            i = i + 1;
        }
        assert(keys@.map_values(|s: String| s@).take(i as int) =~= keys@.map_values(
            |s: String| s@,
        ));
        ReadPlan::Many(v)
    }
}

} // verus!
