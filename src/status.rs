use vstd::prelude::*;

verus! {

/// An HTTP status: its code and reason phrase.
pub struct Status {
    pub code: usize,
    pub message: String,
}

/// Whether `code` is one of the codes with a reason phrase of their own.
pub open spec fn is_known_code(code: usize) -> bool {
    code == 200 || code == 201 || code == 400 || code == 401 || code == 402 || code == 403 || code == 404 || code == 405 || code == 406 || code == 422 || code == 500
}

/// The reason phrase of a known `code`; every other code reads as 200.
pub open spec fn reason_phrase(code: usize) -> Seq<char> {
    if code == 200 {
        "OK"@
    } else if code == 201 {
        "Created"@
    } else if code == 400 {
        "Bad Request"@
    } else if code == 401 {
        "Unauthorized"@
    } else if code == 402 {
        "Payment Required"@
    } else if code == 403 {
        "Forbidden"@
    } else if code == 404 {
        "Not Found"@
    } else if code == 405 {
        "Method Not Allowed"@
    } else if code == 406 {
        "Not Acceptable"@
    } else if code == 422 {
        "Unprocessable Entity"@
    } else if code == 500 {
        "Internal Server Error"@
    } else {
        "OK"@
    }
}

/// The code that `code` resolves to: itself if known, else 200.
pub open spec fn resolved_code(code: usize) -> usize {
    if is_known_code(code) {
        code
    } else {
        200
    }
}

impl Status {
    /// 200 OK.
    pub fn ok() -> (r: Self)
        ensures
            r.code == 200,
            r.message@ == "OK"@,
    {
        Status { code: 200, message: "OK".to_owned() }
    }

    /// 201 Created.
    pub fn created() -> (r: Self)
        ensures
            r.code == 201,
            r.message@ == "Created"@,
    {
        Status { code: 201, message: "Created".to_owned() }
    }

    /// 400 Bad Request.
    pub fn bad_request() -> (r: Self)
        ensures
            r.code == 400,
            r.message@ == "Bad Request"@,
    {
        Status { code: 400, message: "Bad Request".to_owned() }
    }

    /// 401 Unauthorized.
    pub fn un_athorized() -> (r: Self)
        ensures
            r.code == 401,
            r.message@ == "Unauthorized"@,
    {
        Status { code: 401, message: "Unauthorized".to_owned() }
    }

    /// 402 Payment Required.
    pub fn payment_required() -> (r: Self)
        ensures
            r.code == 402,
            r.message@ == "Payment Required"@,
    {
        Status { code: 402, message: "Payment Required".to_owned() }
    }

    /// 403 Forbidden.
    pub fn forbidden() -> (r: Self)
        ensures
            r.code == 403,
            r.message@ == "Forbidden"@,
    {
        Status { code: 403, message: "Forbidden".to_owned() }
    }

    /// 404 Not Found.
    pub fn not_found() -> (r: Self)
        ensures
            r.code == 404,
            r.message@ == "Not Found"@,
    {
        Status { code: 404, message: "Not Found".to_owned() }
    }

    /// 405 Method Not Allowed.
    pub fn method_not_allowed() -> (r: Self)
        ensures
            r.code == 405,
            r.message@ == "Method Not Allowed"@,
    {
        Status { code: 405, message: "Method Not Allowed".to_owned() }
    }

    /// 406 Not Acceptable.
    pub fn not_acceptable() -> (r: Self)
        ensures
            r.code == 406,
            r.message@ == "Not Acceptable"@,
    {
        Status { code: 406, message: "Not Acceptable".to_owned() }
    }

    /// 422 Unprocessable Entity.
    pub fn un_processable_entity() -> (r: Self)
        ensures
            r.code == 422,
            r.message@ == "Unprocessable Entity"@,
    {
        Status { code: 422, message: "Unprocessable Entity".to_owned() }
    }

    /// 500 Internal Server Error.
    pub fn internal_server_error() -> (r: Self)
        ensures
            r.code == 500,
            r.message@ == "Internal Server Error"@,
    {
        Status { code: 500, message: "Internal Server Error".to_owned() }
    }

    /// The status of `status`, with any unknown code read as 200 "OK".
    pub fn from(status: usize) -> (r: Self)
        ensures
            r.code == resolved_code(status),
            r.message@ == reason_phrase(status),
    {
        match status {
            200 => Status::ok(),
            201 => Status::created(),
            400 => Status::bad_request(),
            401 => Status::un_athorized(),
            402 => Status::payment_required(),
            403 => Status::forbidden(),
            404 => Status::not_found(),
            405 => Status::method_not_allowed(),
            406 => Status::not_acceptable(),
            422 => Status::un_processable_entity(),
            500 => Status::internal_server_error(),
            _ => Status::ok(),
        }
    }
}

} // verus!

verus! {

/// A code outside the known set resolves to 200 "OK".
pub proof fn lemma_unknown_code_is_ok(code: usize)
    requires
        !is_known_code(code),
    ensures
        resolved_code(code) == 200,
        reason_phrase(code) == "OK"@,
{
}

} // verus!
