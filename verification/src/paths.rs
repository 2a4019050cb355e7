//! Where the daemon keeps its files: everything lies under `.job` in the
//! user's home directory.

use vstd::prelude::*;

verus! {

/// The path of `name` under the directory `base`, as `Path::join` forms
/// it: an absolute `name` stands for itself; otherwise one separator parts
/// the two, unless `base` is empty or ends in one already.
pub open spec fn joined(base: Seq<char>, name: Seq<char>) -> Seq<char> {
    if name.len() > 0 && name[0] == '/' {
        name
    } else if base.len() == 0 || base.last() == '/' {
        base + name
    } else {
        base.push('/') + name
    }
}

/// The file name of a job's log.
pub open spec fn log_name(job_id: Seq<char>) -> Seq<char> {
    job_id + ".log"@
}

/// Asks `dirs::home_dir` for the user's home directory and hands it on as
/// text, or `None` where it is no valid text. Nothing is promised of the
/// answer: it depends on the environment and on the user database.
#[verifier::external_body]
fn home_dir() -> (home: Option<String>) {
    match dirs::home_dir() {
        Some(path) => path.into_os_string().into_string().ok(),
        None => None,
    }
}

/// The path of `name` under `base`.
pub fn join(base: &str, name: &str) -> (path: String)
    ensures
        path@ == joined(base@, name@),
{
    let name_chars = crate::text::chars_of(name);
    if name_chars.len() > 0 && name_chars[0] == '/' {
        return name.to_string();
    }
    let base_chars = crate::text::chars_of(base);
    if base_chars.len() == 0 || base_chars[base_chars.len() - 1] == '/' {
        base.to_string().concat(name)
    } else {
        proof {
            reveal_strlit("/");
        }
        let path = base.to_string().concat("/").concat(name);
        assert(path@ =~= base@.push('/') + name@);
        path
    }
}

/// The layout of the daemon's data directory.
#[derive(Debug)]
pub struct Paths {
    root: String,
}

impl View for Paths {
    type V = Seq<char>;

    /// The root directory.
    closed spec fn view(&self) -> Seq<char> {
        self.root@
    }
}

impl Paths {
    /// The layout under the home directory of the current user, where one
    /// can be found: what `in_home` makes of the system's answer.
    pub fn new() -> (paths: Option<Paths>)
        ensures
            paths matches Some(p) ==> exists|home: Seq<char>| p@ == joined(home, ".job"@),
    {
        let home = home_dir();
        match &home {
            Some(home) => Paths::in_home(Some(home.as_str())),
            None => Paths::in_home(None),
        }
    }

    /// The layout under the home directory given, and none where none is given.
    pub fn in_home(home: Option<&str>) -> (paths: Option<Paths>)
        ensures
            match home {
                Some(home) => paths matches Some(p) && p@ == joined(home@, ".job"@),
                None => paths is None,
            },
    {
        match home {
            Some(home) => Some(Paths::under(home)),
            None => None,
        }
    }

    /// The layout under the home directory given.
    pub fn under(home: &str) -> (paths: Paths)
        ensures
            paths@ == joined(home@, ".job"@),
    {
        Paths { root: join(home, ".job") }
    }

    /// The layout with the given root directory.
    pub fn at(root: String) -> (paths: Paths)
        ensures
            paths@ == root@,
    {
        Paths { root }
    }

    /// The root directory.
    pub fn root(&self) -> (path: &String)
        ensures
            path@ == self@,
    {
        &self.root
    }

    /// The file of the job store.
    pub fn database(&self) -> (path: String)
        ensures
            path@ == joined(self@, "job.db"@),
    {
        join(self.root.as_str(), "job.db")
    }

    /// The directory of the jobs' logs.
    pub fn logs_dir(&self) -> (path: String)
        ensures
            path@ == joined(self@, "logs"@),
    {
        join(self.root.as_str(), "logs")
    }

    /// The log of one job: its output and its errors.
    pub fn log_file(&self, job_id: &str) -> (path: String)
        ensures
            path@ == joined(joined(self@, "logs"@), log_name(job_id@)),
    {
        let name = job_id.to_string().concat(".log");
        join(self.logs_dir().as_str(), name.as_str())
    }

    /// The socket on which the daemon listens.
    pub fn socket(&self) -> (path: String)
        ensures
            path@ == joined(self@, "daemon.sock"@),
    {
        join(self.root.as_str(), "daemon.sock")
    }

    /// The file that holds the daemon's process id.
    pub fn pid_file(&self) -> (path: String)
        ensures
            path@ == joined(self@, "daemon.pid"@),
    {
        join(self.root.as_str(), "daemon.pid")
    }

    /// A copy of the layout.
    pub fn duplicate(&self) -> (paths: Paths)
        ensures
            paths@ == self@,
    {
        Paths { root: self.root.clone() }
    }
}

impl Clone for Paths {
    fn clone(&self) -> (paths: Paths)
        ensures
            paths@ == self@,
    {
        self.duplicate()
    }
}

} // verus!
