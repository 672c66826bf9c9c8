//! Settings by name.

use super::{Setting, Store};
use crate::text::str_eq;
use vstd::prelude::*;

verus! {

proof fn lemma_lookup(s: Seq<Setting>, i: int)
    requires
        0 <= i < s.len(),
        forall|j: int| i < j < s.len() ==> (#[trigger] s[j]).key@ != s[i].key@,
    ensures
        super::settings_map(s).contains_key(s[i].key@),
        super::settings_map(s)[s[i].key@] == s[i].value@,
    decreases s.len(),
{
    if i < s.len() - 1 {
        lemma_lookup(s.drop_last(), i);
    }
}

proof fn lemma_absent(s: Seq<Setting>, key: Seq<char>)
    requires
        forall|j: int| 0 <= j < s.len() ==> (#[trigger] s[j]).key@ != key,
    ensures
        !super::settings_map(s).contains_key(key),
    decreases s.len(),
{
    if s.len() > 0 {
        lemma_absent(s.drop_last(), key);
    }
}

proof fn lemma_replace(s: Seq<Setting>, i: int, t: Setting)
    requires
        0 <= i < s.len(),
        t.key@ == s[i].key@,
        forall|j: int| 0 <= j < s.len() && j != i ==> (#[trigger] s[j]).key@ != s[i].key@,
    ensures
        super::settings_map(s.update(i, t)) == super::settings_map(s).insert(t.key@, t.value@),
    decreases s.len(),
{
    let u = s.update(i, t);
    if i < s.len() - 1 {
        assert(u.drop_last() =~= s.drop_last().update(i, t));
        lemma_replace(s.drop_last(), i, t);
        assert(s.last().key@ != t.key@);
    } else {
        assert(u.drop_last() =~= s.drop_last());
    }
    assert(super::settings_map(u) =~= super::settings_map(s).insert(t.key@, t.value@));
}

impl Store {
    fn setting_index(&self, key: &str) -> (res: Option<usize>)
        ensures
            match res {
                Some(i) => i < self.settings@.len() && self.settings@[i as int].key@ == key@,
                None => forall|j: int|
                    0 <= j < self.settings@.len() ==> (#[trigger] self.settings@[j]).key@ != key@,
            },
    {
        for i in 0..self.settings.len()
            invariant
                forall|j: int| 0 <= j < i ==> (#[trigger] self.settings@[j]).key@ != key@,
        {
            if str_eq(self.settings[i].key.as_str(), key) {
                return Some(i);
            }
        }
        None
    }

    /// The value of a setting, where it has been set.
    pub fn get_setting(&self, key: &str) -> (res: Option<String>)
        requires
            self.wf(),
        ensures
            match res {
                Some(v) => self@.settings.contains_key(key@) && self@.settings[key@] == v@,
                None => !self@.settings.contains_key(key@),
            },
    {
        match self.setting_index(key) {
            Some(i) => {
                proof {
                    lemma_lookup(self.settings@, i as int);
                }
                Some(self.settings[i].value.clone())
            },
            None => {
                proof {
                    lemma_absent(self.settings@, key@);
                }
                None
            },
        }
    }

    /// Gives a setting a value.
    pub fn set_setting(&mut self, key: &str, value: &str)
        requires
            old(self).wf(),
        ensures
            final(self).wf(),
            final(self)@ == (super::StoreView {
                settings: old(self)@.settings.insert(key@, value@),
                ..old(self)@
            }),
    {
        let t = Setting { key: key.to_owned(), value: value.to_owned() };
        match self.setting_index(key) {
            Some(i) => {
                proof {
                    lemma_replace(self.settings@, i as int, t);
                }
                self.settings[i] = t;
            },
            None => {
                self.settings.push(t);
                assert(self.settings@.drop_last() =~= old(self).settings@);
            },
        }
    }
}

} // verus!
