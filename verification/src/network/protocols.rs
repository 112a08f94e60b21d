//! Protocol builders: an outgoing HTTP request rendered to its text form,
//! and MQTT message construction.

use vstd::prelude::*;
use vstd::string::StringExecFns;
use vstd::string::StringSliceAdditionalSpecFns;
use vstd::utf8::decode_utf8;
use vstd::utf8::encode_utf8_decode_utf8;
use vstd::utf8::valid_utf8;

verus! {

/// The request methods the builder renders.
#[derive(Clone, Copy, PartialEq, Eq, Structural, Debug)]
pub enum HttpMethod {
    GET,
    POST,
    PUT,
    DELETE,
}

/// The method's name on the request line.
pub open spec fn spec_method_name(m: HttpMethod) -> Seq<char> {
    match m {
        HttpMethod::GET => "GET"@,
        HttpMethod::POST => "POST"@,
        HttpMethod::PUT => "PUT"@,
        HttpMethod::DELETE => "DELETE"@,
    }
}

/// An outgoing HTTP request under construction.
pub struct HttpRequest {
    pub method: HttpMethod,
    pub path: String,
    pub headers: Vec<(String, String)>,
    pub body: Option<Vec<u8>>,
}

/// The header lines of the rendered request.
pub open spec fn spec_header_text(hs: Seq<(String, String)>) -> Seq<char>
    decreases hs.len(),
{
    if hs.len() == 0 {
        Seq::empty()
    } else {
        hs[0].0@ + ": "@ + hs[0].1@ + "\r\n"@ + spec_header_text(hs.drop_first())
    }
}

/// The body's contribution to the rendered request: its decoded text when
/// it is valid UTF-8, nothing otherwise.
pub open spec fn spec_body_text(body: Option<Vec<u8>>) -> Seq<char> {
    match body {
        Some(b) => if valid_utf8(b@) {
            decode_utf8(b@)
        } else {
            Seq::empty()
        },
        None => Seq::empty(),
    }
}

/// The whole rendered request: request line, header lines, the empty
/// line, then the body text.
pub open spec fn spec_request_text(r: HttpRequest) -> Seq<char> {
    spec_method_name(r.method) + " "@ + r.path@ + " HTTP/1.1\r\n"@ + spec_header_text(r.headers@)
        + "\r\n"@ + spec_body_text(r.body)
}

#[verifier::external_type_specification]
#[verifier::external_body]
pub struct ExUtf8Error(core::str::Utf8Error);

/// Relies on core::str::from_utf8: succeeds exactly on valid UTF-8, and
/// the returned text is the bytes read back.
pub assume_specification [ core::str::from_utf8 ](v: &[u8]) -> (r: Result<
    &str,
    core::str::Utf8Error,
>)
    ensures
        r is Ok <==> valid_utf8(v@),
        r matches Ok(s) ==> s.spec_bytes() == v@,
;

impl HttpRequest {
    /// A request for the given method and path, with no header or body.
    pub fn new(method: HttpMethod, path: &str) -> (r: Self)
        ensures
            r.method == method,
            r.path@ == path@,
            r.headers@.len() == 0,
            r.body is None,
    {
        HttpRequest { method, path: String::from_str(path), headers: Vec::new(), body: None }
    }

    /// Append a header line.
    pub fn add_header(&mut self, name: &str, value: &str)
        ensures
            final(self).headers@.len() == old(self).headers@.len() + 1,
            final(self).headers@[old(self).headers@.len() as int].0@ == name@,
            final(self).headers@[old(self).headers@.len() as int].1@ == value@,
            forall|k: int|
                0 <= k < old(self).headers@.len() ==> final(self).headers@[k] == old(
                    self,
                ).headers@[k],
            final(self).method == old(self).method,
            final(self).path == old(self).path,
            final(self).body == old(self).body,
    {
        self.headers.push((String::from_str(name), String::from_str(value)));
    }

    /// Set the body.
    pub fn set_body(&mut self, body: Vec<u8>)
        ensures
            final(self).body matches Some(b) && b@ == body@,
            final(self).method == old(self).method,
            final(self).path == old(self).path,
            final(self).headers == old(self).headers,
    {
        self.body = Some(body);
    }

    /// Render the request to its text form: the request line, the header
    /// lines, an empty line, then the body when it is valid UTF-8 text.
    pub fn to_string(&self) -> (r: String)
        ensures
            r@ == spec_request_text(*self),
    {
        let mut request = String::new();
        match self.method {
            HttpMethod::GET => request.append("GET"),
            HttpMethod::POST => request.append("POST"),
            HttpMethod::PUT => request.append("PUT"),
            HttpMethod::DELETE => request.append("DELETE"),
        }
        request.append(" ");
        request.append(self.path.as_str());
        request.append(" HTTP/1.1\r\n");
        let mut k: usize = 0;
        let ghost before_headers = request@;
        while k < self.headers.len()
            invariant
                k <= self.headers@.len(),
                request@ =~= before_headers + spec_header_text(self.headers@.take(k as int)),
            decreases self.headers@.len() - k,
        {
            proof {
                lemma_header_text_take_step(self.headers@, k as int);
            }
            request.append(self.headers[k].0.as_str());
            request.append(": ");
            request.append(self.headers[k].1.as_str());
            request.append("\r\n");
            k = k + 1;
        }
        proof {
            assert(self.headers@.take(self.headers@.len() as int) =~= self.headers@);
        }
        request.append("\r\n");
        if let Some(body) = &self.body {
            if let Ok(body_str) = core::str::from_utf8(body.as_slice()) {
                proof {
                    encode_utf8_decode_utf8(body_str@);
                }
                request.append(body_str);
            }
        }
        proof {
            assert(request@ =~= spec_request_text(*self));
        }
        request
    }
}

proof fn lemma_header_text_take_step(hs: Seq<(String, String)>, k: int)
    requires
        0 <= k < hs.len(),
    ensures
        spec_header_text(hs.take(k + 1)) == spec_header_text(hs.take(k)) + hs[k].0@ + ": "@
            + hs[k].1@ + "\r\n"@,
    decreases k,
{
    if k == 0 {
        assert(hs.take(1)[0] == hs[0]);
        assert(hs.take(1).drop_first() =~= Seq::<(String, String)>::empty());
        assert(hs.take(0) =~= Seq::<(String, String)>::empty());
        assert(spec_header_text(Seq::<(String, String)>::empty()) == Seq::<char>::empty());
        assert(spec_header_text(hs.take(1)) =~= spec_header_text(hs.take(0)) + hs[0].0@ + ": "@
            + hs[0].1@ + "\r\n"@);
    } else {
        lemma_header_text_take_step(hs.drop_first(), k - 1);
        assert(hs.take(k + 1).drop_first() =~= hs.drop_first().take(k));
        assert(hs.take(k).drop_first() =~= hs.drop_first().take(k - 1));
        assert(hs.take(k + 1)[0] == hs[0]);
        assert(hs.take(k)[0] == hs[0]);
        assert(hs.drop_first()[k - 1] == hs[k]);
        assert(spec_header_text(hs.take(k + 1)) =~= spec_header_text(hs.take(k)) + hs[k].0@ + ": "@
            + hs[k].1@ + "\r\n"@);
    }
}

/// The MQTT message kinds.
#[derive(Clone, Copy, PartialEq, Eq, Structural, Debug)]
pub enum MqttMessageType {
    CONNECT,
    CONNACK,
    PUBLISH,
    PUBACK,
    SUBSCRIBE,
    SUBACK,
    UNSUBSCRIBE,
    UNSUBACK,
    PINGREQ,
    PINGRESP,
    DISCONNECT,
}

/// One MQTT message: its kind, the topic and payload where the kind
/// carries them, the delivery level, and the retain mark.
pub struct MqttMessage {
    pub message_type: MqttMessageType,
    pub topic: Option<String>,
    pub payload: Option<Vec<u8>>,
    pub qos: u8,
    pub retain: bool,
}

impl MqttMessage {
    /// A publication of a payload on a topic.
    pub fn new_publish(topic: &str, payload: Vec<u8>, qos: u8, retain: bool) -> (r: Self)
        ensures
            r.message_type == MqttMessageType::PUBLISH,
            r.topic matches Some(t) && t@ == topic@,
            r.payload matches Some(p) && p@ == payload@,
            r.qos == qos,
            r.retain == retain,
    {
        MqttMessage {
            message_type: MqttMessageType::PUBLISH,
            topic: Some(String::from_str(topic)),
            payload: Some(payload),
            qos,
            retain,
        }
    }

    /// A subscription to a topic at a delivery level.
    pub fn new_subscribe(topic: &str, qos: u8) -> (r: Self)
        ensures
            r.message_type == MqttMessageType::SUBSCRIBE,
            r.topic matches Some(t) && t@ == topic@,
            r.payload is None,
            r.qos == qos,
            !r.retain,
    {
        MqttMessage {
            message_type: MqttMessageType::SUBSCRIBE,
            topic: Some(String::from_str(topic)),
            payload: None,
            qos,
            retain: false,
        }
    }
}

} // verus!
