use caphost::dispatch::{outbound_http_request, Ctx};
use caphost::handler::{
    HttpResponse, KeyValueAtomic, KeyValueReadWrite, OutboundHttp, OutgoingHttpRequest,
};
use caphost::table::ResourceTable;

/// A backend that declares more bytes than it hands over.
struct OverstatingStore;

impl KeyValueAtomic for OverstatingStore {
    fn increment(&mut self, _bucket: &String, _key: String, _delta: u64) -> Result<u64, String> {
        Err("unsupported".to_string())
    }

    fn compare_and_swap(
        &mut self,
        _bucket: &String,
        _key: String,
        _old_value: u64,
        _new_value: u64,
    ) -> Result<bool, String> {
        Err("unsupported".to_string())
    }
}

impl KeyValueReadWrite for OverstatingStore {
    fn get(&mut self, _bucket: &String, _key: String) -> Result<(Vec<u8>, u64), String> {
        // Three bytes, but a declared size of five.
        Ok((vec![1, 2, 3], 5))
    }

    fn set(&mut self, _bucket: &String, _key: String, _value: Vec<u8>) -> Result<(), String> {
        Ok(())
    }

    fn delete(&mut self, _bucket: &String, _key: String) -> Result<(), String> {
        Ok(())
    }

    fn contains(&mut self, _bucket: &String, _key: String) -> Result<bool, String> {
        Ok(false)
    }
}

#[test]
fn short_backed_value_from_a_backend_is_not_partial_success() {
    let mut ctx: Ctx<OverstatingStore, OverstatingStore> =
        Ctx::new(None, Some(OverstatingStore));
    let b = ctx.open_bucket("ns".to_string());
    let vh = ctx.get(b, "k".to_string()).unwrap().unwrap();
    assert_eq!(ctx.size(vh), Ok(5));
    let inner = ctx.incoming_value_consume_sync(vh).unwrap();
    let handle = inner.expect_err("short data must fail, not return partial bytes");
    assert_eq!(
        ctx.trace(handle).unwrap(),
        "incoming value is shorter than its declared size"
    );
}

/// An HTTP backend that echoes the request body.
struct EchoHttp;

impl OutboundHttp for EchoHttp {
    fn handle(&mut self, request: OutgoingHttpRequest) -> Result<HttpResponse, String> {
        Ok(HttpResponse {
            status: 200,
            headers: vec![("x-authority".to_string(), request.authority.into_bytes())],
            body: request.body,
        })
    }
}

#[test]
fn http_response_body_is_wrapped_as_an_incoming_value() {
    let mut table = ResourceTable::new();
    let mut handler = EchoHttp;
    let request = OutgoingHttpRequest {
        use_tls: true,
        authority: "example.test".to_string(),
        method: "POST".to_string(),
        path_with_query: "/echo?x=1".to_string(),
        headers: vec![],
        body: vec![5, 6, 7],
        connect_timeout_ms: 1000,
        first_byte_timeout_ms: 1000,
        between_bytes_timeout_ms: 1000,
    };
    let (status, headers, body_handle) =
        outbound_http_request(&mut table, &mut handler, request).unwrap();
    assert_eq!(status, 200);
    assert_eq!(headers.len(), 1);
    let value = table.delete_incoming_value(body_handle).unwrap();
    assert_eq!(value.data, vec![5, 6, 7]);
    assert_eq!(value.declared, 3);
}
