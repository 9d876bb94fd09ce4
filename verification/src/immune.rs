//! Attestation: signed claims binding an agent identity, a step index and a
//! payload hash, verified against an explicit public-key directory.

use vstd::prelude::*;

use crate::crypto::{
    ed_verifies, fresh_secret_bytes, md5_hex, md5_hex_of, sig_of, sign_message, verify_signature,
    verifying_key_bytes, vk_of,
};
use crate::strutil::{decimal_of, str_concat, u64_to_dec};

verus! {

/// A recorded threat event in a cell's local immune memory.
#[derive(Debug)]
pub struct ThreatEvent {
    pub step: u32,
    pub topic: String,
    /// Magnitude of the event, in milli-units.
    pub magnitude: u32,
    /// Confidence in the event, in milli-units.
    pub confidence: u32,
}

impl Clone for ThreatEvent {
    fn clone(&self) -> (r: Self)
        ensures
            r == *self,
    {
        ThreatEvent {
            step: self.step,
            topic: self.topic.clone(),
            magnitude: self.magnitude,
            confidence: self.confidence,
        }
    }
}

/// A signed claim that `cell_id` observed `payload_hash` at `step`.
#[derive(Debug, PartialEq)]
pub struct Attestation {
    pub cell_id: String,
    pub step: u64,
    pub payload_hash: String,
    pub signature: Vec<u8>,
    pub valid: bool,
}

/// The mathematical content of an attestation.
pub ghost struct AttestationView {
    pub cell_id: Seq<char>,
    pub step: u64,
    pub payload_hash: Seq<char>,
    pub signature: Seq<u8>,
    pub valid: bool,
}

impl View for Attestation {
    type V = AttestationView;

    open spec fn view(&self) -> AttestationView {
        AttestationView {
            cell_id: self.cell_id@,
            step: self.step,
            payload_hash: self.payload_hash@,
            signature: self.signature@,
            valid: self.valid,
        }
    }
}

impl Clone for Attestation {
    fn clone(&self) -> (r: Self)
        ensures
            r@ == self@,
    {
        Attestation {
            cell_id: self.cell_id.clone(),
            step: self.step,
            payload_hash: self.payload_hash.clone(),
            signature: self.signature.clone(),
            valid: self.valid,
        }
    }
}

/// The rendering of a milli-unit value to one decimal place, rounded to the
/// nearest tenth: `650` renders as the characters of `0.7`.
pub open spec fn spec_tenths(v: u32) -> Seq<char> {
    decimal_of((((v + 50) / 100) / 10) as u64) + seq!['.'] + decimal_of(
        (((v + 50) / 100) % 10) as u64,
    )
}

/// The canonical payload of a signal: `topic:value:target`, with the value to
/// one decimal place and `none` for a missing target.
pub open spec fn spec_payload(topic: Seq<char>, value: u32, target: Option<Seq<char>>) -> Seq<
    char,
> {
    let t = match target {
        Some(s) => s,
        None => seq!['n', 'o', 'n', 'e'],
    };
    topic + seq![':'] + spec_tenths(value) + seq![':'] + t
}

/// The canonical message that is signed: `step:payload_hash`.
pub open spec fn spec_attest_message(step: u64, hash: Seq<char>) -> Seq<char> {
    decimal_of(step) + seq![':'] + hash
}

/// Render a milli-unit value to one decimal place.
pub fn render_tenths(v: u32) -> (r: String)
    ensures
        r@ == spec_tenths(v),
{
    let t: u64 = ((v as u64) + 50) / 100;
    let whole = u64_to_dec(t / 10);
    let frac = u64_to_dec(t % 10);
    let head = str_concat(whole.as_str(), ".");
    let out = str_concat(head.as_str(), frac.as_str());
    proof {
        reveal_strlit(".");
        assert("."@ =~= seq!['.']);
        assert(out@ =~= spec_tenths(v));
    }
    out
}

/// Build the canonical signal payload `topic:value:target`.
pub fn signal_payload(topic: &str, value: u32, target: &Option<String>) -> (r: String)
    ensures
        r@ == spec_payload(topic@, value, target.deep_view()),
{
    let rendered = render_tenths(value);
    let a = str_concat(topic, ":");
    let b = str_concat(a.as_str(), rendered.as_str());
    let c = str_concat(b.as_str(), ":");
    let out = match target {
        Some(t) => str_concat(c.as_str(), t.as_str()),
        None => str_concat(c.as_str(), "none"),
    };
    proof {
        reveal_strlit(":");
        reveal_strlit("none");
        assert(":"@ =~= seq![':']);
        assert("none"@ =~= seq!['n', 'o', 'n', 'e']);
        assert(out@ =~= spec_payload(topic@, value, target.deep_view()));
    }
    out
}

/// Build the canonical message `step:hash` that a TPM signs.
pub fn attest_message(step: u64, hash: &str) -> (r: String)
    ensures
        r@ == spec_attest_message(step, hash@),
{
    let head = str_concat(u64_to_dec(step).as_str(), ":");
    let out = str_concat(head.as_str(), hash);
    proof {
        reveal_strlit(":");
        assert(":"@ =~= seq![':']);
        assert(out@ =~= spec_attest_message(step, hash@));
    }
    out
}

/// The public key stored for `k`: the first entry whose identity reads `k`.
pub open spec fn spec_lookup(s: Seq<(String, Vec<u8>)>, k: Seq<char>) -> Option<Seq<u8>>
    decreases s.len(),
{
    if s.len() == 0 {
        None
    } else if s[0].0@ == k {
        Some(s[0].1@)
    } else {
        spec_lookup(s.drop_first(), k)
    }
}

/// `s` with `k`'s key bytes replaced by `v`; a missing identity is appended.
pub open spec fn spec_register(s: Seq<(String, Vec<u8>)>, k: String, v: Vec<u8>) -> Seq<
    (String, Vec<u8>),
>
    decreases s.len(),
{
    if s.len() == 0 {
        seq![(k, v)]
    } else if s[0].0@ == k@ {
        seq![(s[0].0, v)] + s.drop_first()
    } else {
        seq![s[0]] + spec_register(s.drop_first(), k, v)
    }
}

/// The published directory of per-agent public verification keys, owned by
/// the simulation run and passed by reference to verification calls.
#[derive(Debug)]
pub struct PublicKeyDirectory {
    pub entries: Vec<(String, Vec<u8>)>,
}

impl PublicKeyDirectory {
    pub fn new() -> (r: PublicKeyDirectory)
        ensures
            r.entries@ =~= Seq::<(String, Vec<u8>)>::empty(),
    {
        PublicKeyDirectory { entries: Vec::new() }
    }

    /// Publish `key` as `id`'s verification key, replacing any earlier one.
    pub fn register(&mut self, id: &String, key: Vec<u8>)
        ensures
            final (self).entries@ == spec_register(old(self).entries@, *id, key),
    {
        let ghost orig = self.entries@;
        let n = self.entries.len();
        let mut i: usize = 0;
        while i < n
            invariant
                n == orig.len(),
                i <= n,
                orig == old(self).entries@,
                self.entries@ == orig,
                forall|j: int| 0 <= j < i ==> #[trigger] orig[j].0@ != id@,
            decreases n - i,
        {
            if crate::strutil::str_eq(self.entries[i].0.as_str(), id.as_str()) {
                let ghost key_val = key;
                let stored = self.entries[i].0.clone();
                self.entries[i] = (stored, key);
                proof {
                    lemma_register_at(orig, *id, key_val, i as int);
                    assert(self.entries@ =~= orig.update(i as int, (orig[i as int].0, key_val)));
                }
                return ;
            }
            i = i + 1;
        }
        let ghost key_val = key;
        self.entries.push((id.clone(), key));
        proof {
            lemma_register_absent(orig, *id, key_val);
        }
    }

    /// The verification key published for `cell_id`, if any.
    pub fn get_pki(&self, cell_id: &str) -> (r: Option<&Vec<u8>>)
        ensures
            match r {
                Some(k) => spec_lookup(self.entries@, cell_id@) == Some(k@),
                None => spec_lookup(self.entries@, cell_id@) is None,
            },
    {
        let n = self.entries.len();
        let mut i: usize = 0;
        proof {
            assert(self.entries@.skip(0) =~= self.entries@);
        }
        while i < n
            invariant
                n == self.entries@.len(),
                i <= n,
                spec_lookup(self.entries@, cell_id@) == spec_lookup(
                    self.entries@.skip(i as int),
                    cell_id@,
                ),
            decreases n - i,
        {
            proof {
                assert(self.entries@.skip(i as int).drop_first() =~= self.entries@.skip(
                    i as int + 1,
                ));
            }
            if crate::strutil::str_eq(self.entries[i].0.as_str(), cell_id) {
                return Some(&self.entries[i].1);
            }
            i = i + 1;
        }
        None
    }
}

proof fn lemma_register_at(s: Seq<(String, Vec<u8>)>, k: String, v: Vec<u8>, i: int)
    requires
        0 <= i < s.len(),
        s[i].0@ == k@,
        forall|j: int| 0 <= j < i ==> #[trigger] s[j].0@ != k@,
    ensures
        spec_register(s, k, v) == s.update(i, (s[i].0, v)),
    decreases s.len(),
{
    if i == 0 {
        assert(spec_register(s, k, v) =~= s.update(0, (s[0].0, v)));
    } else {
        lemma_register_at(s.drop_first(), k, v, i - 1);
        assert(spec_register(s, k, v) =~= s.update(i, (s[i].0, v)));
    }
}

proof fn lemma_register_absent(s: Seq<(String, Vec<u8>)>, k: String, v: Vec<u8>)
    requires
        forall|j: int| 0 <= j < s.len() ==> #[trigger] s[j].0@ != k@,
    ensures
        spec_register(s, k, v) == s.push((k, v)),
    decreases s.len(),
{
    if s.len() == 0 {
        assert(spec_register(s, k, v) =~= s.push((k, v)));
    } else {
        lemma_register_absent(s.drop_first(), k, v);
        assert(spec_register(s, k, v) =~= s.push((k, v)));
    }
}

/// How registering a key changes later lookups: the registered identity now
/// maps to the new key and every other identity is untouched.
pub proof fn lemma_lookup_register(s: Seq<(String, Vec<u8>)>, k: String, v: Vec<u8>, q: Seq<char>)
    ensures
        q == k@ ==> spec_lookup(spec_register(s, k, v), q) == Some(v@),
        q != k@ ==> spec_lookup(spec_register(s, k, v), q) == spec_lookup(s, q),
    decreases s.len(),
{
    let r = spec_register(s, k, v);
    if s.len() == 0 {
        assert(r =~= seq![(k, v)]);
        assert(r[0] == (k, v));
        assert(r.drop_first() =~= Seq::<(String, Vec<u8>)>::empty());
        if q == k@ {
            assert(spec_lookup(r, q) == Some(v@));
        } else {
            assert(spec_lookup(r, q) == spec_lookup(r.drop_first(), q));
            assert(spec_lookup(r, q) == spec_lookup(s, q));
        }
    } else if s[0].0@ == k@ {
        assert(r =~= seq![(s[0].0, v)] + s.drop_first());
        assert(r[0] == (s[0].0, v));
        assert(r.drop_first() =~= s.drop_first());
        if q == k@ {
            assert(spec_lookup(r, q) == Some(v@));
        } else {
            assert(spec_lookup(r, q) == spec_lookup(s.drop_first(), q));
            assert(spec_lookup(s, q) == spec_lookup(s.drop_first(), q));
        }
    } else {
        lemma_lookup_register(s.drop_first(), k, v, q);
        assert(r =~= seq![s[0]] + spec_register(s.drop_first(), k, v));
        assert(r[0] == s[0]);
        assert(r.drop_first() =~= spec_register(s.drop_first(), k, v));
        if q == k@ {
            assert(q != s[0].0@);
            assert(spec_lookup(r, q) == spec_lookup(r.drop_first(), q));
        } else if q == s[0].0@ {
            assert(spec_lookup(r, q) == Some(r[0].1@));
            assert(spec_lookup(s, q) == Some(s[0].1@));
        } else {
            assert(spec_lookup(r, q) == spec_lookup(r.drop_first(), q));
            assert(spec_lookup(s, q) == spec_lookup(s.drop_first(), q));
        }
    }
}

/// A simulated trusted platform module: an agent's private signing
/// capability. The 32 secret bytes never leave the struct; only the derived
/// public key is published.
#[derive(Debug)]
pub struct TPM {
    pub cell_id: String,
    pub compromised: bool,
    secret_bytes: Vec<u8>,
}

impl TPM {
    /// The secret signing bytes, visible to specifications only.
    pub closed spec fn secret(self) -> Seq<u8> {
        self.secret_bytes@
    }

    /// The identity this module signs for.
    pub closed spec fn spec_cell_id(self) -> String {
        self.cell_id
    }

    /// Whether the module declines to sign.
    pub closed spec fn spec_compromised(self) -> bool {
        self.compromised
    }

    pub closed spec fn wf(self) -> bool {
        self.secret_bytes@.len() == 32
    }

    /// Create a signing capability for `cell_id` and publish its public key
    /// in `directory`.
    pub fn new(cell_id: String, directory: &mut PublicKeyDirectory) -> (r: TPM)
        ensures
            r.wf(),
            r.spec_cell_id() == cell_id,
            !r.spec_compromised(),
            spec_lookup(final (directory).entries@, cell_id@) == Some(vk_of(r.secret())),
            forall|q: Seq<char>|
                q != cell_id@ ==> #[trigger] spec_lookup(final (directory).entries@, q)
                    == spec_lookup(old(directory).entries@, q),
    {
        let secret_bytes = fresh_secret_bytes();
        let vk = verifying_key_bytes(&secret_bytes);
        let ghost vk_val = vk;
        directory.register(&cell_id, vk);
        proof {
            lemma_lookup_register(old(directory).entries@, cell_id, vk_val, cell_id@);
            assert forall|q: Seq<char>| q != cell_id@ implies #[trigger] spec_lookup(
                directory.entries@,
                q,
            ) == spec_lookup(old(directory).entries@, q) by {
                lemma_lookup_register(old(directory).entries@, cell_id, vk_val, q);
            }
        }
        TPM { cell_id, compromised: false, secret_bytes }
    }

    /// Sign `step:hash(payload)`, or decline when the module is compromised.
    pub fn attest(&self, step: u64, payload: &str) -> (r: Option<Attestation>)
        requires
            self.wf(),
        ensures
            spec_attest_result(*self, step, payload@, r),
    {
        if self.compromised {
            None
        } else {
            let payload_hash = md5_hex(payload);
            let message = attest_message(step, payload_hash.as_str());
            let signature = sign_message(&self.secret_bytes, message.as_str());
            Some(
                Attestation {
                    cell_id: self.cell_id.clone(),
                    step,
                    payload_hash,
                    signature,
                    valid: true,
                },
            )
        }
    }

    /// Check an attestation: it must be marked valid, be at most one step
    /// stale and none ahead, carry the hash of `payload`, and its signature
    /// must verify against the signer's published key.
    pub fn verify(
        directory: &PublicKeyDirectory,
        attestation: &Attestation,
        current_step: u64,
        payload: &str,
    ) -> (r: bool)
        ensures
            r == spec_verify(directory.entries@, attestation@, current_step, payload@),
    {
        if !attestation.valid {
            return false;
        }
        if attestation.step > current_step || current_step - attestation.step > 1 {
            return false;
        }
        let expected_hash = md5_hex(payload);
        if !crate::strutil::str_eq(attestation.payload_hash.as_str(), expected_hash.as_str()) {
            return false;
        }
        let message = attest_message(attestation.step, expected_hash.as_str());
        match directory.get_pki(attestation.cell_id.as_str()) {
            Some(vk) => verify_signature(vk, message.as_str(), &attestation.signature),
            None => false,
        }
    }
}

/// What `TPM::attest` returns: nothing exactly when the module is
/// compromised; otherwise a valid claim over the canonical payload hash,
/// signed so that it verifies under the module's public key.
pub open spec fn spec_attest_result(
    t: TPM,
    step: u64,
    payload: Seq<char>,
    r: Option<Attestation>,
) -> bool {
    match r {
        None => t.spec_compromised(),
        Some(a) => {
            &&& !t.spec_compromised()
            &&& a@.cell_id == t.spec_cell_id()@
            &&& a@.step == step
            &&& a@.payload_hash == md5_hex_of(payload)
            &&& a@.signature == sig_of(t.secret(), spec_attest_message(step, md5_hex_of(payload)))
            &&& a@.valid
            &&& ed_verifies(
                vk_of(t.secret()),
                spec_attest_message(step, md5_hex_of(payload)),
                a@.signature,
            )
        },
    }
}

/// What `TPM::verify` accepts.
pub open spec fn spec_verify(
    dir: Seq<(String, Vec<u8>)>,
    a: AttestationView,
    current_step: u64,
    payload: Seq<char>,
) -> bool {
    &&& a.valid
    &&& a.step <= current_step
    &&& current_step - a.step <= 1
    &&& a.payload_hash == md5_hex_of(payload)
    &&& match spec_lookup(dir, a.cell_id) {
        Some(vk) => ed_verifies(vk, spec_attest_message(a.step, md5_hex_of(payload)), a.signature),
        None => false,
    }
}

/// Verification refuses a claim that is stale by more than one step, from the
/// future, over a different payload, or from a signer with no published key —
/// whatever its signature bytes hold.
pub proof fn lemma_verify_rejections(
    dir: Seq<(String, Vec<u8>)>,
    a: AttestationView,
    current_step: u64,
    payload: Seq<char>,
)
    ensures
        a.step + 1 < current_step ==> !spec_verify(dir, a, current_step, payload),
        a.step > current_step ==> !spec_verify(dir, a, current_step, payload),
        a.payload_hash != md5_hex_of(payload) ==> !spec_verify(dir, a, current_step, payload),
        spec_lookup(dir, a.cell_id) is None ==> !spec_verify(dir, a, current_step, payload),
        !a.valid ==> !spec_verify(dir, a, current_step, payload),
{
}

/// A claim freshly produced by `TPM::attest` passes `TPM::verify` against the
/// same payload while it is at most one step old, provided the signer's
/// published key is the one derived from its secret.
pub proof fn lemma_attested_claim_verifies(
    dir: Seq<(String, Vec<u8>)>,
    a: Attestation,
    t: TPM,
    step: u64,
    current_step: u64,
    payload: Seq<char>,
)
    requires
        spec_attest_result(t, step, payload, Some(a)),
        spec_lookup(dir, a@.cell_id) == Some(vk_of(t.secret())),
        step <= current_step <= step + 1,
    ensures
        spec_verify(dir, a@, current_step, payload),
{
}

} // verus!
