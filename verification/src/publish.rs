//! Pure text pieces of the publishing flow: the commit message, the remote
//! address rewritten to carry a token, and the processed image's names. The
//! file system and version-control calls around them live outside the
//! library.

use vstd::prelude::*;

use crate::date::{spec_fmt_compact, valid_stamp, Stamp};

verus! {

/// What the processed image is called afterwards: the path to write into
/// the document, and where the file landed.
#[derive(Debug)]
pub struct ProcessImageResult {
    pub path: String,
    pub local_path: String,
}

/// Whether `p` is a prefix of `s`.
pub open spec fn spec_starts_with(s: Seq<char>, p: Seq<char>) -> bool {
    p.len() <= s.len() && s.take(p.len() as int) == p
}

/// Executable prefix test.
pub fn starts_with_str(s: &str, p: &str) -> (r: bool)
    ensures
        r == spec_starts_with(s@, p@),
{
    let plen = p.unicode_len();
    let slen = s.unicode_len();
    if plen > slen {
        return false;
    }
    let mut i: usize = 0;
    while i < plen
        invariant
            0 <= i <= plen == p@.len(),
            plen <= slen == s@.len(),
            forall|j: int| 0 <= j < i ==> s@[j] == p@[j],
        decreases plen - i,
    {
        if s.get_char(i) != p.get_char(i) {
            proof {
                assert(s@.take(p@.len() as int)[i as int] != p@[i as int]);
            }
            return false;
        }
        i = i + 1;
    }
    proof {
        assert(s@.take(p@.len() as int) =~= p@);
    }
    true
}

/// The remote address rewritten so a push can authenticate: a GitHub remote
/// (HTTPS or SSH form) becomes an HTTPS address carrying the token, any
/// other remote is left as it is.
pub open spec fn spec_auth_url(remote: Seq<char>, token: Seq<char>) -> Seq<char> {
    if spec_starts_with(remote, "https://github.com/"@) {
        "https://"@ + token + "@github.com/"@ + remote.skip("https://github.com/"@.len() as int)
    } else if spec_starts_with(remote, "git@github.com:"@) {
        "https://"@ + token + "@github.com/"@ + remote.skip("git@github.com:"@.len() as int)
    } else {
        remote
    }
}

/// Rewrites a GitHub remote address to authenticate with the given token.
pub fn authenticated_push_url(remote: &str, token: &str) -> (r: String)
    ensures
        r@ == spec_auth_url(remote@, token@),
{
    let https_prefix = "https://github.com/";
    let ssh_prefix = "git@github.com:";
    if starts_with_str(remote, https_prefix) {
        let tail = remote.substring_char(https_prefix.unicode_len(), remote.unicode_len());
        let mut out = "https://".to_owned();
        out.append(token);
        out.append("@github.com/");
        out.append(tail);
        proof {
            assert(out@ =~= spec_auth_url(remote@, token@));
        }
        out
    } else if starts_with_str(remote, ssh_prefix) {
        let tail = remote.substring_char(ssh_prefix.unicode_len(), remote.unicode_len());
        let mut out = "https://".to_owned();
        out.append(token);
        out.append("@github.com/");
        out.append(tail);
        proof {
            assert(out@ =~= spec_auth_url(remote@, token@));
        }
        out
    } else {
        remote.to_owned()
    }
}

/// The message committing one post.
pub fn commit_message_for(title: &str) -> (r: String)
    ensures
        r@ == "feat(blog): add post - "@ + title@,
{
    let mut out = "feat(blog): add post - ".to_owned();
    out.append(title);
    out
}

/// The file name of a processed image: its slug, the compact UTC stamp of
/// the processing moment, and the WebP suffix.
pub fn webp_output_name(safe_name: &str, taken_at: &Stamp) -> (r: String)
    requires
        valid_stamp(*taken_at),
    ensures
        r@ == safe_name@ + "_"@ + spec_fmt_compact(*taken_at) + ".webp"@,
{
    let mut out = safe_name.to_owned();
    out.append("_");
    out.append(crate::date::format_compact(taken_at).as_str());
    out.append(".webp");
    out
}

/// Where the document refers to a processed image.
pub fn markdown_image_path(output_name: &str) -> (r: String)
    ensures
        r@ == "/images/posts/"@ + output_name@,
{
    let mut out = "/images/posts/".to_owned();
    out.append(output_name);
    out
}

} // verus!
