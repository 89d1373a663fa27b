//! Ordered local-file imports, independent of the signed-in account.
//!
//! Drops and file choices queue up as jobs; one job runs at a time, in
//! the order they came, and a cancel invalidates every result still on
//! its way.
use std::collections::VecDeque;
use vstd::prelude::*;
use crate::discovery::next_request_id;
use crate::model::{opt_id, TrackId};
use crate::text::{decimal, join, join_strings, push_decimal, string_views};

verus! {

/// One batch of files to import, or a file to relocate a track to.
#[derive(Debug)]
pub struct Job {
    pub id: u64,
    pub paths: Vec<String>,
    /// The local track whose file the import relocates.
    pub replace: Option<TrackId>,
}

/// A job by its values.
pub struct JobView {
    pub id: u64,
    pub paths: Seq<Seq<char>>,
    pub replace: Option<Seq<char>>,
}

impl View for Job {
    type V = JobView;

    open spec fn view(&self) -> JobView {
        JobView { id: self.id, paths: string_views(self.paths@), replace: opt_id(self.replace) }
    }
}

/// The import queue.
#[derive(Debug)]
pub struct Imports {
    /// Bumped by every cancel; a file choice made under an older
    /// generation is stale.
    pub generation: u64,
    next_id: u64,
    jobs: VecDeque<Job>,
    /// Files of the running job done so far.
    pub done: usize,
}

/// The import queue by its values.
pub struct ImportsView {
    pub generation: u64,
    pub next_id: u64,
    pub jobs: Seq<JobView>,
    pub done: usize,
}

impl View for Imports {
    type V = ImportsView;

    closed spec fn view(&self) -> ImportsView {
        ImportsView {
            generation: self.generation,
            next_id: self.next_id,
            jobs: self.jobs@.map_values(|j: Job| j@),
            done: self.done,
        }
    }
}

impl Default for Imports {
    fn default() -> (r: Self)
        ensures
            r@.generation == 0,
            r@.next_id == 0,
            r@.jobs.len() == 0,
            r@.done == 0,
    {
        let r = Imports { generation: 0, next_id: 0, jobs: VecDeque::new(), done: 0 };
        assert(r@.jobs =~= Seq::<JobView>::empty());
        r
    }
}

/// The job a caller starts: its id and its files.
pub struct JobStart {
    pub id: u64,
    pub paths: Vec<String>,
}

impl Imports {
    /// The file count of the running job, or zero when none runs.
    pub fn total(&self) -> (r: usize)
        ensures
            r == if self@.jobs.len() > 0 {
                self@.jobs[0].paths.len()
            } else {
                0
            },
    {
        if self.jobs.len() > 0 {
            self.jobs[0].paths.len()
        } else {
            0
        }
    }

    /// Whether a job runs or waits.
    pub fn pending(&self) -> (r: bool)
        ensures
            r == (self@.jobs.len() > 0),
    {
        self.jobs.len() > 0
    }

    /// Drops every job and invalidates results still on their way.
    pub fn cancel(&mut self)
        ensures
            final(self)@.generation == next_request_id(old(self)@.generation),
            final(self)@.next_id == old(self)@.next_id,
            final(self)@.jobs.len() == 0,
            final(self)@.done == 0,
    {
        self.generation = self.generation.wrapping_add(1);
        self.jobs.clear();
        self.done = 0;
        assert(self@.jobs =~= Seq::<JobView>::empty());
    }

    /// What the running job is, for the caller to start it; resets the
    /// progress count.
    pub fn start_next(&mut self) -> (r: Option<JobStart>)
        ensures
            final(self)@.generation == old(self)@.generation,
            final(self)@.next_id == old(self)@.next_id,
            final(self)@.jobs == old(self)@.jobs,
            final(self)@.done == 0,
            match r {
                Some(s) => old(self)@.jobs.len() > 0 && s.id == old(self)@.jobs[0].id
                    && string_views(s.paths@) == old(self)@.jobs[0].paths,
                None => old(self)@.jobs.len() == 0,
            },
    {
        self.done = 0;
        if self.jobs.len() == 0 {
            return None;
        }
        let job = &self.jobs[0];
        let mut paths: Vec<String> = Vec::new();
        let mut i: usize = 0;
        while i < job.paths.len()
            invariant
                i <= job.paths@.len(),
                paths@.len() == i,
                forall|k: int| 0 <= k < i ==> #[trigger] paths@[k]@ == job.paths@[k]@,
            decreases job.paths@.len() - i,
        {
            paths.push(job.paths[i].clone());
            i = i + 1;
        }
        assert(string_views(paths@) =~= string_views(job.paths@));
        Some(JobStart { id: job.id, paths })
    }

    /// Queues a job for `paths`; an empty list queues nothing. Returns
    /// the job to start when it is the only one, so it runs at once;
    /// a later job waits its turn.
    pub fn enqueue(&mut self, paths: Vec<String>, replace: Option<TrackId>) -> (r: Option<JobStart>)
        ensures
            paths@.len() == 0 ==> r is None && final(self)@ == old(self)@,
            paths@.len() > 0 ==> {
                let id = next_request_id(old(self)@.next_id);
                let job = JobView { id, paths: string_views(paths@), replace: opt_id(replace) };
                &&& final(self)@.next_id == id
                &&& final(self)@.generation == old(self)@.generation
                &&& final(self)@.jobs == old(self)@.jobs.push(job)
                &&& if old(self)@.jobs.len() == 0 {
                    &&& final(self)@.done == 0
                    &&& r matches Some(s) && s.id == id && string_views(s.paths@) == job.paths
                } else {
                    &&& final(self)@.done == old(self)@.done
                    &&& r is None
                }
            },
    {
        if paths.len() == 0 {
            return None;
        }
        self.next_id = self.next_id.wrapping_add(1);
        let ghost before = self.jobs@;
        self.jobs.push_back(Job { id: self.next_id, paths, replace });
        assert(self@.jobs =~= before.map_values(|j: Job| j@).push(self.jobs@.last()@));
        if self.jobs.len() == 1 {
            self.start_next()
        } else {
            None
        }
    }

    /// Records the running job's progress, when `id` names it.
    pub fn progress(&mut self, id: u64, done: usize)
        ensures
            final(self)@.generation == old(self)@.generation,
            final(self)@.next_id == old(self)@.next_id,
            final(self)@.jobs == old(self)@.jobs,
            final(self)@.done == if old(self)@.jobs.len() > 0 && old(self)@.jobs[0].id == id {
                done
            } else {
                old(self)@.done
            },
    {
        if self.jobs.len() > 0 && self.jobs[0].id == id {
            self.done = done;
        }
    }

    /// Takes the running job off the queue when `id` names it; a late
    /// result for a cancelled or older job takes nothing.
    pub fn finish(&mut self, id: u64) -> (r: Option<Job>)
        ensures
            final(self)@.generation == old(self)@.generation,
            final(self)@.next_id == old(self)@.next_id,
            final(self)@.done == old(self)@.done,
            if old(self)@.jobs.len() > 0 && old(self)@.jobs[0].id == id {
                &&& r matches Some(j) && j@ == old(self)@.jobs[0]
                &&& final(self)@.jobs == old(self)@.jobs.drop_first()
            } else {
                &&& r is None
                &&& final(self)@.jobs == old(self)@.jobs
            },
    {
        if self.jobs.len() == 0 || self.jobs[0].id != id {
            return None;
        }
        let ghost before = self.jobs@;
        let job = self.jobs.pop_front();
        assert(self@.jobs =~= before.map_values(|j: Job| j@).drop_first());
        job
    }
}

/// The notice after an import job: what it added or relocated, and
/// the files it could not read, one per line; none when nothing came
/// of it.
pub open spec fn import_notice(replacing: bool, count: nat, errors: Seq<Seq<char>>) -> Option<Seq<char>> {
    if count == 0 && errors.len() == 0 {
        None
    } else {
        let head = if replacing && count > 0 {
            "File location updated."@
        } else {
            "Added "@ + decimal(count) + " file"@ + (if count == 1 {
                ""@
            } else {
                "s"@
            }) + "."@
        };
        Some(
            if errors.len() == 0 {
                head
            } else {
                head + " "@ + decimal(errors.len()) + " could not be read:\n"@ + join(errors, "\n"@)
            },
        )
    }
}

/// The notice after an import job that brought `count` tracks and
/// these read errors.
pub fn import_message(replacing: bool, count: usize, errors: &[String]) -> (r: Option<String>)
    ensures
        match r {
            Some(m) => import_notice(replacing, count as nat, string_views(errors@)) == Some(m@),
            None => import_notice(replacing, count as nat, string_views(errors@)) is None,
        },
{
    if count == 0 && errors.len() == 0 {
        return None;
    }
    let mut message = if replacing && count > 0 {
        "File location updated.".to_owned()
    } else {
        let mut m = "Added ".to_owned();
        push_decimal(&mut m, count as u64);
        m.append(" file");
        if count != 1 {
            m.append("s");
        }
        m.append(".");
        proof {
            reveal_strlit("");
            let tail: Seq<char> = if count == 1 {
                ""@
            } else {
                "s"@
            };
            assert(m@ =~= "Added "@ + decimal(count as nat) + " file"@ + tail + "."@);
        }
        m
    };
    if errors.len() > 0 {
        message.append(" ");
        push_decimal(&mut message, errors.len() as u64);
        message.append(" could not be read:\n");
        let joined = join_strings(errors, "\n");
        message.append(joined.as_str());
    }
    assert(string_views(errors@).len() == errors@.len());
    Some(message)
}

} // verus!
