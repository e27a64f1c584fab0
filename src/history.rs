//! The log of completed downloads, newest first and capped in length.

use vstd::prelude::*;
use crate::ident::{lower_of, lowercase};
use crate::text::{chars_of, contains_chars, contains_seq};

verus! {

/// One completed download.
#[derive(Debug, Clone)]
pub struct CompletedTask {
    pub id: String,
    pub url: String,
    pub dest: String,
    pub total_size: u64,
    pub completed_at: u64,
    /// Seconds the download took.
    pub duration: u64,
    /// Bytes per second.
    pub avg_speed: u64,
}

impl CompletedTask {
    /// A field-by-field copy.
    pub fn duplicate(&self) -> (r: CompletedTask)
        ensures
            r == *self,
    {
        CompletedTask {
            id: self.id.clone(),
            url: self.url.clone(),
            dest: self.dest.clone(),
            total_size: self.total_size,
            completed_at: self.completed_at,
            duration: self.duration,
            avg_speed: self.avg_speed,
        }
    }
}

/// A record matches a query when its URL or destination contains it,
/// ignoring case.
pub open spec fn search_hit(t: CompletedTask, query: Seq<char>) -> bool {
    contains_seq(lower_of(t.url@), lower_of(query)) || contains_seq(lower_of(t.dest@), lower_of(query))
}

pub open spec fn search_pred(query: Seq<char>) -> spec_fn(CompletedTask) -> bool {
    |t: CompletedTask| search_hit(t, query)
}

pub const DEFAULT_MAX_HISTORY: usize = 100;

/// Completed downloads, newest first.
#[derive(Debug, Clone)]
pub struct DownloadHistory {
    pub completed_tasks: Vec<CompletedTask>,
    pub max_history: usize,
}

impl Default for DownloadHistory {
    fn default() -> (r: Self)
        ensures
            r.completed_tasks@.len() == 0,
            r.max_history == DEFAULT_MAX_HISTORY,
    {
        DownloadHistory { completed_tasks: Vec::new(), max_history: DEFAULT_MAX_HISTORY }
    }
}

impl DownloadHistory {
    /// Puts `task` first and drops the oldest records beyond `max_history`.
    pub fn add_completed(&mut self, task: CompletedTask)
        ensures
            final(self).max_history == old(self).max_history,
            final(self).completed_tasks@ == ({
                let all = seq![task].add(old(self).completed_tasks@);
                if all.len() > old(self).max_history { all.take(old(self).max_history as int) } else { all }
            }),
    {
        self.completed_tasks.insert(0, task);
        proof {
            assert(self.completed_tasks@ == seq![task].add(old(self).completed_tasks@));
        }
        if self.completed_tasks.len() > self.max_history {
            self.completed_tasks.truncate(self.max_history);
        }
    }

    pub fn clear(&mut self)
        ensures
            final(self).completed_tasks@.len() == 0,
            final(self).max_history == old(self).max_history,
    {
        self.completed_tasks.clear();
    }

    /// Deletes the first record with the given id; returns whether there was one.
    pub fn remove(&mut self, id: &str) -> (r: bool)
        ensures
            final(self).max_history == old(self).max_history,
            r == (exists|i: int| 0 <= i < old(self).completed_tasks@.len() && #[trigger] old(self).completed_tasks@[i].id@ == id@),
            !r ==> final(self).completed_tasks@ == old(self).completed_tasks@,
            r ==> exists|i: int| 0 <= i < old(self).completed_tasks@.len()
                && old(self).completed_tasks@[i].id@ == id@
                && (forall|k: int| 0 <= k < i ==> old(self).completed_tasks@[k].id@ != id@)
                && final(self).completed_tasks@ == old(self).completed_tasks@.remove(i),
    {
        let key = id.to_owned();
        let mut i: usize = 0;
        while i < self.completed_tasks.len()
            invariant
                key@ == id@,
                self.completed_tasks@ == old(self).completed_tasks@,
                self.max_history == old(self).max_history,
                0 <= i <= self.completed_tasks@.len(),
                forall|k: int| 0 <= k < i ==> self.completed_tasks@[k].id@ != id@,
            decreases self.completed_tasks@.len() - i,
        {
            if self.completed_tasks[i].id == key {
                self.completed_tasks.remove(i);
                return true;
            }
            i = i + 1;
        }
        false
    }

    /// All records, newest first.
    pub fn get_all(&self) -> (r: &[CompletedTask])
        ensures
            r@ == self.completed_tasks@,
    {
        self.completed_tasks.as_slice()
    }

    /// The records whose URL or destination contains `query`, ignoring
    /// case, newest first.
    pub fn search(&self, query: &str) -> (r: Vec<CompletedTask>)
        ensures
            r@ == self.completed_tasks@.filter(search_pred(query@)),
    {
        let q = chars_of(lowercase(query).as_str());
        let mut r: Vec<CompletedTask> = Vec::new();
        let mut i: usize = 0;
        while i < self.completed_tasks.len()
            invariant
                q@ == lower_of(query@),
                0 <= i <= self.completed_tasks@.len(),
                r@ == self.completed_tasks@.subrange(0, i as int).filter(search_pred(query@)),
            decreases self.completed_tasks@.len() - i,
        {
            let t = &self.completed_tasks[i];
            let url = chars_of(lowercase(t.url.as_str()).as_str());
            let dest = chars_of(lowercase(t.dest.as_str()).as_str());
            let hit = contains_chars(&url, &q) || contains_chars(&dest, &q);
            proof {
                let p = self.completed_tasks@.subrange(0, i as int + 1);
                assert(p.drop_last() == self.completed_tasks@.subrange(0, i as int));
                assert(p.last() == *t);
                reveal(Seq::filter);
                assert(hit == search_hit(*t, query@));
            }
            if hit {
                r.push(t.duplicate());
            }
            i = i + 1;
        }
        proof {
            assert(self.completed_tasks@.subrange(0, self.completed_tasks@.len() as int) == self.completed_tasks@);
        }
        r
    }
}

} // verus!
