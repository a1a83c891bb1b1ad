//! The typed surface towards the scheduler: endpoint addresses, the bearer
//! header, and the catalog filter applied to fetched scan functions. The
//! HTTP transport itself lives outside the library and works on the strings
//! built here.

use vstd::prelude::*;
use vstd::string::*;

use crate::config::Config;
use crate::models::{CodeFunction, GenericModel};
use crate::text::{chars_eq_str, chars_of};

verus! {

/// Address and credential material for scheduler requests.
#[derive(Debug, Clone, PartialEq)]
pub struct Scheduler {
    pub base_url: String,
    pub token: String,
}

/// Whether an identifier occurs among the requested ones.
pub open spec fn spec_id_requested(requested: Seq<String>, id: Seq<char>) -> bool {
    exists|k: int| 0 <= k < requested.len() && requested[k]@ == id
}

/// Whether a request list means "the whole catalog": it is empty or its
/// first entry is the wildcard.
pub open spec fn spec_wildcard(requested: Seq<String>) -> bool {
    requested.len() == 0 || requested[0]@ == "*"@
}

/// Whether a string holds exactly the characters of a literal.
fn string_eq_str(s: &String, lit: &str) -> (r: bool)
    ensures
        r == (s@ == lit@),
{
    let c = chars_of(s.as_str());
    chars_eq_str(&c, lit)
}

impl Scheduler {
    /// A scheduler handle rooted at the configured base address.
    pub fn new(config: &Config) -> (s: Scheduler)
        ensures
            s.base_url@ == "http://"@ + config.scheduler.base_url@ + "/api/v1"@,
            s.token@ == config.scheduler.token@,
    {
        let mut base_url: String = String::from_str("http://");
        base_url.append(config.scheduler.base_url.as_str());
        base_url.append("/api/v1");
        let mut token: String = String::new();
        token.append(config.scheduler.token.as_str());
        proof {
            assert(token@ =~= config.scheduler.token@);
        }
        Scheduler { base_url, token }
    }

    /// The value of the `Authorization` header on every request.
    pub fn authorization_value(&self) -> (r: String)
        ensures
            r@ == "Bearer "@ + self.token@,
    {
        let mut r: String = String::from_str("Bearer ");
        r.append(self.token.as_str());
        r
    }

    /// The address of one repository's metadata.
    pub fn repository_url(&self, repository_id: &str) -> (r: String)
        ensures
            r@ == self.base_url@ + "/repositories/"@ + repository_id@,
    {
        let mut r: String = String::new();
        r.append(self.base_url.as_str());
        r.append("/repositories/");
        r.append(repository_id);
        proof {
            assert(r@ =~= self.base_url@ + "/repositories/"@ + repository_id@);
        }
        r
    }

    /// The address of the function catalog.
    pub fn functions_url(&self) -> (r: String)
        ensures
            r@ == self.base_url@ + "/functions"@,
    {
        let mut r: String = String::new();
        r.append(self.base_url.as_str());
        r.append("/functions");
        proof {
            assert(r@ =~= self.base_url@ + "/functions"@);
        }
        r
    }

    /// The address scans are uploaded to.
    pub fn scans_url(&self) -> (r: String)
        ensures
            r@ == self.base_url@ + "/scans"@,
    {
        let mut r: String = String::new();
        r.append(self.base_url.as_str());
        r.append("/scans");
        proof {
            assert(r@ =~= self.base_url@ + "/scans"@);
        }
        r
    }

    /// The address issues are uploaded to.
    pub fn issues_url(&self) -> (r: String)
        ensures
            r@ == self.base_url@ + "/issues"@,
    {
        let mut r: String = String::new();
        r.append(self.base_url.as_str());
        r.append("/issues");
        proof {
            assert(r@ =~= self.base_url@ + "/issues"@);
        }
        r
    }
}

/// The scan identifier carried by an upload response; a response that
/// omits it yields the placeholder identifier.
pub fn scan_id_or_default(response: GenericModel) -> (r: String)
    ensures
        match response.public_id {
            Some(id) => r@ == id@,
            None => r@ == "-"@,
        },
{
    match response.public_id {
        Some(id) => id,
        None => String::from_str("-"),
    }
}

/// Whether the identifier occurs among the requested ones.
fn contains_id(requested: &Vec<String>, id: &String) -> (r: bool)
    ensures
        r == spec_id_requested(requested@, id@),
{
    let mut j: usize = 0;
    while j < requested.len()
        invariant
            j <= requested.len(),
            forall|k: int| 0 <= k < j ==> requested@[k]@ != id@,
        decreases requested.len() - j,
    {
        if string_eq_str(&requested[j], id.as_str()) {
            return true;
        }
        j = j + 1;
    }
    false
}

/// Restricts a fetched catalog to the requested functions: an empty request
/// or a leading wildcard keeps the whole catalog, anything else keeps, in
/// catalog order, exactly the functions whose public identifier was asked
/// for.
pub fn filter_functions(catalog: Vec<CodeFunction>, requested: &Vec<String>) -> (r: Vec<
    CodeFunction,
>)
    ensures
        spec_wildcard(requested@) ==> r@ == catalog@,
        !spec_wildcard(requested@) ==> r@ == catalog@.filter(
            |f: CodeFunction| spec_id_requested(requested@, f.public_id@),
        ),
{
    if requested.len() == 0 {
        return catalog;
    }
    if string_eq_str(&requested[0], "*") {
        return catalog;
    }
    let ghost pred = |f: CodeFunction| spec_id_requested(requested@, f.public_id@);
    let mut remaining = catalog;
    let ghost orig = remaining@;
    let mut out: Vec<CodeFunction> = Vec::new();
    let mut i: usize = 0;
    let total: usize = remaining.len();
    proof {
        assert(orig.len() == total);
    }
    proof {
        assert(orig.take(0) =~= Seq::<CodeFunction>::empty());
        assert(orig.take(0).filter(pred) =~= Seq::<CodeFunction>::empty()) by {
            reveal(Seq::filter);
        }
    }
    while remaining.len() > 0
        invariant
            i <= orig.len(),
            orig.len() <= usize::MAX,
            remaining@ == orig.skip(i as int),
            out@ == orig.take(i as int).filter(pred),
            pred == (|f: CodeFunction| spec_id_requested(requested@, f.public_id@)),
        decreases remaining.len(),
    {
        let f = remaining.remove(0);
        proof {
            assert(orig.skip(i as int)[0] == orig[i as int]);
            assert(orig.skip(i as int).remove(0) =~= orig.skip(i as int + 1));
        }
        let keep = contains_id(requested, &f.public_id);
        proof {
            assert(keep == pred(orig[i as int]));
            assert(orig.take(i as int + 1).drop_last() =~= orig.take(i as int));
            assert(orig.take(i as int + 1).last() == orig[i as int]);
            reveal(Seq::filter);
        }
        if keep {
            out.push(f);
        }
        i = i + 1;
    }
    proof {
        assert(orig.take(orig.len() as int) =~= orig);
    }
    out
}

} // verus!
