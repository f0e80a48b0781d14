//! Who may watch a video: the access list kept in the video's document, and
//! the decision taken on it.

use vstd::prelude::*;

verus! {

/// The access list stored in a video's document: the endpoints that may
/// watch the video.
pub struct AuthorizedUsers {
    /// Printed ids of the endpoints allowed.
    pub authorized_users: Vec<String>,
}

impl AuthorizedUsers {
    /// The endpoint ids of the list, in order.
    pub open spec fn users(&self) -> Seq<Seq<char>> {
        self.authorized_users@.map_values(|u: String| u@)
    }

    /// The access list an uploader writes: the uploading endpoint alone.
    pub fn single(endpoint_id: &str) -> (r: Self)
        ensures
            r.users() == seq![endpoint_id@],
    {
        let mut users: Vec<String> = Vec::new();
        users.push(String::from_str(endpoint_id));
        let r = AuthorizedUsers { authorized_users: users };
        assert(r.users() =~= seq![endpoint_id@]);
        r
    }

    /// Whether the endpoint `endpoint_id` is on the list.
    pub fn permits(&self, endpoint_id: &str) -> (r: bool)
        ensures
            r == self.users().contains(endpoint_id@),
    {
        let target = String::from_str(endpoint_id);
        let n = self.authorized_users.len();
        let mut k: usize = 0;
        while k < n
            invariant
                n == self.authorized_users.len(),
                k <= n,
                target@ == endpoint_id@,
                forall|j: int| 0 <= j < k ==> self.users()[j] != endpoint_id@,
            decreases n - k,
        {
            if self.authorized_users[k] == target {
                assert(self.users()[k as int] == endpoint_id@);
                return true;
            }
            k += 1;
        }
        proof {
            if self.users().contains(endpoint_id@) {
                let j = choose|j: int| 0 <= j < self.users().len() && self.users()[j] == endpoint_id@;
                assert(false);
            }
        }
        false
    }
}

/// Key of the entry that holds a document's access list.
pub fn access_list_key() -> (r: &'static str)
    ensures
        r@ == "accesslist"@,
{
    "accesslist"
}

/// Whether `endpoint_id` may watch a video, given the access list found in
/// its document, if any: a document without an access list admits nobody.
pub fn access_decision(access_list: Option<&AuthorizedUsers>, endpoint_id: &str) -> (r: bool)
    ensures
        r == match access_list {
            Some(list) => list.users().contains(endpoint_id@),
            None => false,
        },
{
    match access_list {
        Some(list) => list.permits(endpoint_id),
        None => false,
    }
}

/// The endpoint that uploaded a video is admitted by the access list it
/// writes.
pub proof fn lemma_uploader_is_admitted(list: AuthorizedUsers, endpoint_id: Seq<char>)
    requires
        list.users() == seq![endpoint_id],
    ensures
        list.users().contains(endpoint_id),
{
    assert(list.users()[0] == endpoint_id);
}

} // verus!
