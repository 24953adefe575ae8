use vstd::prelude::*;
use rand::{thread_rng, Rng};
use rand::distributions::Alphanumeric;

verus! {

/// ASCII letters and digits: the alphabet the remote filename is drawn from.
pub open spec fn is_alnum(c: char) -> bool {
    ('a' <= c && c <= 'z') || ('A' <= c && c <= 'Z') || ('0' <= c && c <= '9')
}

/// Index of the last `.` in `s`, or -1 when there is none.
pub open spec fn last_dot(s: Seq<char>) -> int
    decreases s.len(),
{
    if s.len() == 0 {
        -1
    } else if s.last() == '.' {
        s.len() - 1
    } else {
        last_dot(s.drop_last())
    }
}

/// The extension of a base filename: what follows the last dot. A name
/// without a dot has none, and neither has a name whose only dot opens it,
/// such as a hidden file's.
pub open spec fn ext_spec(s: Seq<char>) -> Option<Seq<char>> {
    if last_dot(s) <= 0 {
        None
    } else {
        Some(s.skip(last_dot(s) + 1))
    }
}

/// The extension of the given base filename, as `ext_spec` defines it.
pub fn extension_of(name: &str) -> (r: Option<String>)
    ensures
        match r {
            Some(e) => ext_spec(name@) == Some(e@),
            None => ext_spec(name@) is None,
        },
{
    let n = name.unicode_len();
    proof {
        assert(name@.subrange(0, n as int) =~= name@);
    }
    let mut i: usize = n;
    while i > 0
        invariant
            i <= n,
            n == name@.len(),
            last_dot(name@) == last_dot(name@.subrange(0, i as int)),
        decreases i,
    {
        let c = name.get_char(i - 1);
        if c == '.' {
            assert(last_dot(name@.subrange(0, i as int)) == i - 1);
            if i == 1 {
                return None;
            }
            let e = name.substring_char(i, n).to_owned();
            proof {
                assert(name@.skip(i as int) =~= name@.subrange(i as int, n as int));
            }
            return Some(e);
        }
        proof {
            assert(name@.subrange(0, i as int).drop_last() =~= name@.subrange(0, i - 1));
        }
        i -= 1;
    }
    proof {
        assert(name@.subrange(0, 0) =~= Seq::<char>::empty());
    }
    None
}

/// Relies on rand's `Alphanumeric` distribution: it samples from the ASCII
/// letters and digits only, so however the generator behaves, every drawn
/// character is alphanumeric and exactly `len` of them are taken.
#[verifier::external_body]
fn random_alphanumeric(len: usize) -> (r: String)
    ensures
        r@.len() == len,
        forall|i: int| 0 <= i < r@.len() ==> is_alnum(r@[i]),
{
    thread_rng().sample_iter(&Alphanumeric).take(len).map(char::from).collect()
}

/// Joins the watch directory and a base filename into the file's path.
pub fn path_in_watch_dir(watch_path: &str, name: &str) -> (r: String)
    ensures
        r@ == watch_path@ + "/"@ + name@,
{
    let mut out = watch_path.to_owned();
    out.append("/");
    out.append(name);
    out
}

/// The remote filename for a random part and an extension: the random part,
/// a dot, then the extension.
pub fn remote_filename(random: &str, ext: &str) -> (r: String)
    ensures
        r@ == random@ + "."@ + ext@,
{
    let mut out = random.to_owned();
    out.append(".");
    out.append(ext);
    out
}

/// Draws the random part and forms the remote filename: thirty alphanumeric
/// characters, then a dot, then the original extension.
pub fn generate_remote_filename(ext: &str) -> (r: String)
    ensures
        r@.len() == 31 + ext@.len(),
        forall|i: int| 0 <= i < 30 ==> is_alnum(r@[i]),
        r@[30] == '.',
        r@.skip(31) == ext@,
{
    let random = random_alphanumeric(30);
    let out = remote_filename(random.as_str(), ext);
    proof {
        reveal_strlit(".");
        assert(out@.skip(31) =~= ext@);
    }
    out
}

/// The fixed form fields sent with every upload, in order.
pub fn upload_form_fields() -> (r: Vec<(String, String)>)
    ensures
        r@.len() == 5,
        r@[0].0@ == "format"@ && r@[0].1@ == "json"@,
        r@[1].0@ == "first-view"@ && r@[1].1@ == "0"@,
        r@[2].0@ == "delete-day"@ && r@[2].1@ == "30"@,
        r@[3].0@ == "crypt"@ && r@[3].1@ == "1"@,
        r@[4].0@ == "keep-exif"@ && r@[4].1@ == "0"@,
{
    let mut v: Vec<(String, String)> = Vec::new();
    v.push(("format".to_owned(), "json".to_owned()));
    v.push(("first-view".to_owned(), "0".to_owned()));
    v.push(("delete-day".to_owned(), "30".to_owned()));
    v.push(("crypt".to_owned(), "1".to_owned()));
    v.push(("keep-exif".to_owned(), "0".to_owned()));
    v
}

/// Everything the caller needs to upload one file.
pub struct UploadPlan {
    /// The file to read, inside the watch directory.
    pub file_path: String,
    /// The randomised name the file is uploaded under.
    pub remote_name: String,
}

/// What one watcher event leads to.
pub enum EventOutcome {
    /// Not a write-close, or no filename attached: the event is dropped.
    Ignore,
    /// The filename has no extension; the caller treats this as fatal.
    NoExtension,
    /// The file is uploaded as the plan says.
    Upload(UploadPlan),
}

/// Decides what one watcher event leads to. Only a write-close event that
/// carries a filename with an extension yields an upload; the plan then names
/// the file inside the watch directory and a fresh randomised remote name.
pub fn plan_upload(watch_path: &str, close_write: bool, name: Option<&str>) -> (r: EventOutcome)
    ensures
        !close_write ==> r is Ignore,
        match r {
            EventOutcome::Ignore => !close_write || name is None,
            EventOutcome::NoExtension => close_write && (name matches Some(nm)
                && ext_spec(nm@) is None),
            EventOutcome::Upload(p) => close_write && (name matches Some(nm)
                && (exists|e: Seq<char>|
                    {
                        &&& ext_spec(nm@) == Some(e)
                        &&& p.file_path@ == watch_path@ + "/"@ + nm@
                        &&& p.remote_name@.len() == 31 + e.len()
                        &&& (forall|i: int| 0 <= i < 30 ==> is_alnum(p.remote_name@[i]))
                        &&& p.remote_name@[30] == '.'
                        &&& p.remote_name@.skip(31) == e
                    })),
        },
{
    if !close_write {
        return EventOutcome::Ignore;
    }
    match name {
        None => EventOutcome::Ignore,
        Some(nm) => match extension_of(nm) {
            None => EventOutcome::NoExtension,
            Some(e) => {
                let file_path = path_in_watch_dir(watch_path, nm);
                let remote_name = generate_remote_filename(e.as_str());
                EventOutcome::Upload(UploadPlan { file_path, remote_name })
            },
        },
    }
}

} // verus!
