use vstd::prelude::*;

verus! {

/// Relies on rand::random_range: a uniform draw from `0..n`.  Nothing more
/// is promised of the value than its range.
#[verifier::external_body]
fn rand_below(n: usize) -> (r: usize)
    requires
        n > 0,
    ensures
        r < n,
{
    rand::random_range(0..n)
}

/// A shuffler that avoids repeating recently chosen keys: given a list of
/// candidates it picks one at random, preferring candidates whose key was
/// not just chosen, so that a key never comes up twice in a row while an
/// alternative exists.
pub struct RandomMixer {
    history: Vec<String>,
    history_size: usize,
}

/// A pick that has been drawn but not yet recorded; `accept` hands the
/// value out.
pub struct Possibility<T> {
    pub value: T,
    /// The key the draw is recorded under.
    pub key: String,
}

impl RandomMixer {
    /// An empty shuffler remembering the single most recent pick.
    pub fn new() -> (m: RandomMixer)
        ensures
            m.spec_history().len() == 0,
            m.spec_history_size() == 1,
    {
        RandomMixer { history: Vec::new(), history_size: 1 }
    }

    pub closed spec fn spec_history(&self) -> Seq<String> {
        self.history@
    }

    pub closed spec fn spec_history_size(&self) -> int {
        self.history_size as int
    }

    /// The key most recently accepted, if any.
    pub open spec fn spec_last(&self) -> Option<Seq<char>> {
        if self.spec_history().len() == 0 {
            None
        } else {
            Some(self.spec_history().last()@)
        }
    }

    /// Draws one candidate, avoiding the most recent key whenever some
    /// candidate differs from it: the result is a candidate, there is one
    /// exactly when the list is nonempty, and it repeats the last pick
    /// only if every candidate equals it.
    pub fn pick(&mut self, candidates: &Vec<String>) -> (r: Option<String>)
        requires
            old(self).spec_history().len() <= old(self).spec_history_size(),
            old(self).spec_history_size() >= 1,
        ensures
            final(self).spec_history_size() == old(self).spec_history_size(),
            final(self).spec_history().len() <= final(self).spec_history_size(),
            r is Some <==> candidates.len() > 0,
            r is Some ==> exists|i: int|
                0 <= i < candidates.len() && (#[trigger] candidates@[i])@ == r.unwrap()@,
            (r is Some && old(self).spec_last() is Some && old(self).spec_history_size() >= 1
                && exists|i: int|
                0 <= i < candidates.len() && (#[trigger] candidates@[i])@ != old(
                    self,
                ).spec_last().unwrap()) ==> r.unwrap()@ != old(self).spec_last().unwrap(),
            r is Some ==> final(self).spec_last() == Some(r.unwrap()@),
    {
        if candidates.len() == 0 {
            return None;
        }
        let mut fresh: Vec<String> = Vec::new();
        if self.history.len() > 0 && self.history_size >= 1 {
            let last = &self.history[self.history.len() - 1];
            let mut i: usize = 0;
            while i < candidates.len()
                invariant
                    i <= candidates.len(),
                    self.history.len() > 0,
                    forall|k: int|
                        0 <= k < fresh.len() ==> exists|q: int|
                            0 <= q < candidates.len() && (#[trigger] fresh@[k])@ == (
                            candidates@[q])@,
                    forall|k: int|
                        0 <= k < fresh.len() ==> (#[trigger] fresh@[k])@ != last@,
                    fresh.len() > 0 <==> exists|q: int|
                        0 <= q < i && (#[trigger] candidates@[q])@ != last@,
                decreases candidates.len() - i,
            {
                let c = &candidates[i];
                if !string_eq(c, last) {
                    fresh.push(c.clone());
                }
                i += 1;
            }
        }
        let picked: String = if fresh.len() > 0 {
            let idx = rand_below(fresh.len());
            fresh[idx].clone()
        } else {
            let idx = rand_below(candidates.len());
            candidates[idx].clone()
        };
        proof {
            if fresh.len() == 0 {
                assert(exists|q: int|
                    0 <= q < candidates.len() && (#[trigger] candidates@[q])@ == picked@);
            }
        }
        self.record(picked.clone());
        Some(picked)
    }

    /// Draws one candidate without recording it yet.
    pub fn possibility(&mut self, candidates: &Vec<String>) -> (r: Option<Possibility<String>>)
        ensures
            r is Some <==> candidates.len() > 0,
            r is Some ==> exists|i: int|
                0 <= i < candidates.len() && (#[trigger] candidates@[i])@ == r.unwrap().value@,
            r is Some ==> r.unwrap().key@ == r.unwrap().value@,
    {
        if candidates.len() == 0 {
            return None;
        }
        let idx = rand_below(candidates.len());
        let value = candidates[idx].clone();
        let key = candidates[idx].clone();
        Some(Possibility { value, key })
    }

    /// Records a pick in the bounded history.
    pub fn record(&mut self, key: String)
        requires
            old(self).spec_history_size() >= 1,
            old(self).spec_history().len() <= old(self).spec_history_size(),
        ensures
            final(self).spec_history_size() == old(self).spec_history_size(),
            final(self).spec_history().len() <= final(self).spec_history_size(),
            final(self).spec_last() == Some(key@),
    {
        self.history.push(key);
        if self.history.len() > self.history_size {
            let dropped = self.history.remove(0);
        }
        proof {
            assert(self.history.len() > 0);
        }
    }
}

/// Whether two strings hold the same characters.
fn string_eq(a: &String, b: &String) -> (r: bool)
    ensures
        r <==> a@ == b@,
{
    a.eq(b)
}

impl<T> Possibility<T> {
    /// Transforms the drawn value, keeping the key.
    pub fn map<U, F: FnOnce(T) -> U>(self, f: F) -> (r: Possibility<U>)
        requires
            call_requires(f, (self.value,)),
        ensures
            call_ensures(f, (self.value,), r.value),
            r.key == self.key,
    {
        let Possibility { value, key } = self;
        Possibility { value: f(value), key }
    }

    /// Accepts the pick, recording its key, and hands the value out.
    pub fn accept(self, mixer: &mut RandomMixer) -> (r: T)
        requires
            old(mixer).spec_history_size() >= 1,
            old(mixer).spec_history().len() <= old(mixer).spec_history_size(),
        ensures
            final(mixer).spec_history_size() == old(mixer).spec_history_size(),
            final(mixer).spec_history().len() <= final(mixer).spec_history_size(),
            final(mixer).spec_last() == Some(self.key@),
            r == self.value,
    {
        mixer.record(self.key);
        self.value
    }
}

} // verus!
