use vstd::prelude::*;

verus! {

/// Credentials and endpoint of one storage bucket.
#[derive(Debug, Clone)]
pub struct Config {
    /// Access key id.
    pub secret_id: String,
    /// Access key secret.
    pub secret_key: String,
    /// Region of the bucket.
    pub region: String,
    /// Name of the bucket.
    pub bucket: String,
}

impl Config {
    /// A configuration from its four values.
    pub fn new(secret_id: String, secret_key: String, region: String, bucket: String) -> (r: Self)
        ensures
            r.secret_id@ == secret_id@,
            r.secret_key@ == secret_key@,
            r.region@ == region@,
            r.bucket@ == bucket@,
    {
        Config { secret_id, secret_key, region, bucket }
    }

    /// The virtual host of the bucket.
    pub open spec fn host_spec(&self) -> Seq<char> {
        self.bucket@ + ".cos."@ + self.region@ + ".myqcloud.com"@
    }

    /// The public URL of an object.
    pub open spec fn object_url_spec(&self, object_key: Seq<char>) -> Seq<char> {
        "https://"@ + self.host_spec() + "/"@ + object_key
    }

    /// The virtual host of the bucket: `{bucket}.cos.{region}.myqcloud.com`.
    pub fn host(&self) -> (r: String)
        ensures
            r@ == self.host_spec(),
    {
        let mut h = self.bucket.clone();
        h.append(".cos.");
        h.append(self.region.as_str());
        h.append(".myqcloud.com");
        h
    }

    /// The public URL of an object: `https://{host}/{object_key}`.
    pub fn object_url(&self, object_key: &str) -> (r: String)
        ensures
            r@ == self.object_url_spec(object_key@),
    {
        let mut u = String::from_str("https://");
        let h = self.host();
        u.append(h.as_str());
        u.append("/");
        u.append(object_key);
        u
    }
}

} // verus!
