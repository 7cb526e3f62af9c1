//! A parsed transport message: sender, recipient, memo text and an optional
//! signature. The signature scheme is the placeholder the protocol ships
//! with: a hex SHA-256 over the canonical payload and the key, not a real
//! public-key signature.
use vstd::prelude::*;
use crate::clock::now_unix_seconds;
use crate::hashing::{sha256_hex, sha256_hex_of};
use crate::strutil::{dec_str, str_eq, u64_to_dec};

verus! {

/// A message as handed over by the transport.
#[derive(Debug, Clone)]
pub struct Message {
    pub sender_address: String,
    pub recipient_address: String,
    pub memo_text: String,
    pub signature: Option<String>,
    pub timestamp: u64,
    pub txid: Option<String>,
}

/// The canonical character string a signature covers: sender, recipient,
/// memo and timestamp, colon-separated.
pub open spec fn signature_payload(
    sender: Seq<char>,
    recipient: Seq<char>,
    memo: Seq<char>,
    timestamp: u64,
) -> Seq<char> {
    sender + seq![':'] + recipient + seq![':'] + memo + seq![':'] + dec_str(timestamp as nat)
}

/// The placeholder signature over a payload: hex SHA-256 of payload then
/// key.
pub open spec fn simple_signature(payload: Seq<char>, key: Seq<char>) -> Seq<char> {
    sha256_hex_of(payload + key)
}

/// The signature `sign` stores in a message with these fields.
pub open spec fn message_signature(m: Message, key: Seq<char>) -> Seq<char> {
    simple_signature(
        signature_payload(m.sender_address@, m.recipient_address@, m.memo_text@, m.timestamp),
        key,
    )
}

impl Message {
    /// A fresh unsigned message, stamped with the current time.
    pub fn new(sender: String, recipient: String, memo: String) -> (r: Message)
        ensures
            r.sender_address@ == sender@,
            r.recipient_address@ == recipient@,
            r.memo_text@ == memo@,
            r.signature is None,
            r.txid is None,
    {
        Message {
            sender_address: sender,
            recipient_address: recipient,
            memo_text: memo,
            signature: None,
            timestamp: now_unix_seconds(),
            txid: None,
        }
    }

    fn create_signature_payload(&self) -> (r: String)
        ensures
            r@ == signature_payload(
                self.sender_address@,
                self.recipient_address@,
                self.memo_text@,
                self.timestamp,
            ),
    {
        let mut s = self.sender_address.clone();
        s.append(":");
        s.append(self.recipient_address.as_str());
        s.append(":");
        s.append(self.memo_text.as_str());
        s.append(":");
        let ts = u64_to_dec(self.timestamp);
        s.append(ts.as_str());
        proof {
            reveal_strlit(":");
            assert((":")@ =~= seq![':']);
            assert(s@ =~= signature_payload(
                self.sender_address@,
                self.recipient_address@,
                self.memo_text@,
                self.timestamp,
            ));
        }
        s
    }

    fn create_simple_signature(&self, message: &str, key: &str) -> (r: String)
        ensures
            r@ == simple_signature(message@, key@),
    {
        let mut m = message.to_owned();
        m.append(key);
        sha256_hex(m.as_str())
    }

    /// Signs the message with the placeholder scheme; only the signature
    /// field changes.
    pub fn sign(&mut self, private_key: &str) -> (r: Result<(), String>)
        ensures
            r is Ok,
            final(self).signature is Some,
            final(self).signature->Some_0@ == message_signature(*old(self), private_key@),
            final(self).sender_address == old(self).sender_address,
            final(self).recipient_address == old(self).recipient_address,
            final(self).memo_text == old(self).memo_text,
            final(self).timestamp == old(self).timestamp,
            final(self).txid == old(self).txid,
    {
        let payload = self.create_signature_payload();
        let signature = self.create_simple_signature(payload.as_str(), private_key);
        self.signature = Some(signature);
        Ok(())
    }

    /// Whether the stored signature is exactly the placeholder signature
    /// under the given key.
    pub fn verify_signature(&self, private_key: &str) -> (r: bool)
        ensures
            r == (self.signature is Some && self.signature->Some_0@ == message_signature(
                *self,
                private_key@,
            )),
    {
        match &self.signature {
            Some(sig) => {
                let payload = self.create_signature_payload();
                let expected = self.create_simple_signature(payload.as_str(), private_key);
                str_eq(sig.as_str(), expected.as_str())
            },
            None => false,
        }
    }
}

} // verus!
