//! A small request handler: requests, responses, and an application that
//! counts the requests it has seen.

use crate::headers::Headers;
use core::future::Future;
use vstd::prelude::*;
use vstd::string::StringExecFns;

verus! {

/// A request to the application.
#[derive(Debug)]
pub struct Request {
    pub path_and_query: String,
    pub headers: Headers,
    pub body: Vec<u8>,
}

/// The application's answer.
#[derive(Debug)]
pub struct Response {
    pub status: u32,
    pub headers: Headers,
    pub body: Vec<u8>,
}

/// Why a request was not answered.
#[derive(Debug, Clone, Copy, PartialEq, Eq, Structural)]
pub enum ServiceError {
    /// The application turns down one request of four.
    Refused,
}

impl ServiceError {
    /// The error in words.
    pub fn describe(&self) -> (text: String)
        ensures
            text@ == "Failing 25% of the time, just for fun"@,
    {
        match self {
            ServiceError::Refused => "Failing 25% of the time, just for fun".to_owned(),
        }
    }
}

/// The character of a digit.
pub open spec fn digit_char(digit: nat) -> char {
    if digit == 0 {
        '0'
    } else if digit == 1 {
        '1'
    } else if digit == 2 {
        '2'
    } else if digit == 3 {
        '3'
    } else if digit == 4 {
        '4'
    } else if digit == 5 {
        '5'
    } else if digit == 6 {
        '6'
    } else if digit == 7 {
        '7'
    } else if digit == 8 {
        '8'
    } else {
        '9'
    }
}

/// A number in decimal digits, without leading zeros.
pub open spec fn decimal(n: nat) -> Seq<char>
    decreases n,
{
    if n < 10 {
        seq![digit_char(n)]
    } else {
        decimal(n / 10).push(digit_char(n % 10))
    }
}

/// The text of one digit.
fn digit_text(digit: usize) -> (text: &'static str)
    requires
        digit < 10,
    ensures
        text@ == seq![digit_char(digit as nat)],
{
    proof {
        reveal_strlit("0");
        reveal_strlit("1");
        reveal_strlit("2");
        reveal_strlit("3");
        reveal_strlit("4");
        reveal_strlit("5");
        reveal_strlit("6");
        reveal_strlit("7");
        reveal_strlit("8");
        reveal_strlit("9");
    }
    let text = if digit == 0 {
        "0"
    } else if digit == 1 {
        "1"
    } else if digit == 2 {
        "2"
    } else if digit == 3 {
        "3"
    } else if digit == 4 {
        "4"
    } else if digit == 5 {
        "5"
    } else if digit == 6 {
        "6"
    } else if digit == 7 {
        "7"
    } else if digit == 8 {
        "8"
    } else {
        "9"
    };
    assert(text@ =~= seq![digit_char(digit as nat)]);
    text
}

/// Writes a number in decimal digits.
pub fn decimal_text(n: usize) -> (text: String)
    ensures
        text@ == decimal(n as nat),
    decreases n,
{
    if n < 10 {
        digit_text(n).to_owned()
    } else {
        let mut text = decimal_text(n / 10);
        text.append(digit_text(n % 10));
        assert(text@ =~= decimal(n as nat));
        text
    }
}

/// The answer to the request that was counted as number `counter`, counting
/// from zero: the third of every four requests is refused, and every other
/// one gets its headers and its body back, with the count under `X-Counter`.
pub fn respond(request: Request, counter: usize) -> (answer: Result<Response, ServiceError>)
    ensures
        counter % 4 == 2 ==> answer == Err::<Response, ServiceError>(ServiceError::Refused),
        counter % 4 != 2 ==> answer is Ok && answer->Ok_0.status == 200
            && answer->Ok_0.headers@ == request.headers@.insert(
            "X-Counter"@,
            decimal(counter as nat),
        ) && answer->Ok_0.body@ == request.body@,
{
    if counter % 4 == 2 {
        return Err(ServiceError::Refused);
    }
    let mut headers = request.headers;
    headers.insert("X-Counter".to_owned(), decimal_text(counter));
    Ok(Response { status: 200, headers, body: request.body })
}

/// An application that answers requests and counts them.
#[derive(Debug)]
pub struct DemoApp {
    counter: usize,
}

impl DemoApp {
    /// The application that has seen no request.
    pub fn new() -> (app: DemoApp)
        ensures
            app.seen() == 0,
    {
        DemoApp { counter: 0 }
    }

    /// The number of requests seen, counted in a machine word.
    pub closed spec fn seen(&self) -> usize {
        self.counter
    }

    /// Counts the request and answers it as [`respond`] does. The count wraps
    /// around at the end of the machine word.
    pub fn call(&mut self, request: Request) -> (answer: Result<Response, ServiceError>)
        ensures
            final(self).seen() == if old(self).seen() == usize::MAX {
                0
            } else {
                old(self).seen() + 1
            },
            old(self).seen() % 4 == 2 ==> answer == Err::<Response, ServiceError>(
                ServiceError::Refused,
            ),
            old(self).seen() % 4 != 2 ==> answer is Ok && answer->Ok_0.status == 200
                && answer->Ok_0.headers@ == request.headers@.insert(
                "X-Counter"@,
                decimal(old(self).seen() as nat),
            ) && answer->Ok_0.body@ == request.body@,
    {
        let counter = self.counter;
        self.counter = if counter == usize::MAX {
            0
        } else {
            counter + 1
        };
        respond(request, counter)
    }
}

impl Default for DemoApp {
    fn default() -> (app: DemoApp)
        ensures
            app.seen() == 0,
    {
        DemoApp::new()
    }
}

/// An application made of a function from requests to answers that are still
/// to come.
pub struct AppFn<F> {
    f: F,
}

impl<F> AppFn<F> {
    /// The function that answers.
    pub closed spec fn handler(&self) -> F {
        self.f
    }
}

impl<F, Ret> AppFn<F> where
    F: FnMut(Request) -> Ret,
    Ret: Future<Output = Result<Response, ServiceError>>,
 {
    /// Hands the request to the function.
    pub fn call(&mut self, request: Request) -> (answer: Ret)
        requires
            call_requires(old(self).handler(), (request,)),
        ensures
            call_ensures(old(self).handler(), (request,), answer),
    {
        (self.f)(request)
    }
}

/// Makes an application of a function.
pub fn app_fn<F, Ret>(f: F) -> (app: AppFn<F>) where
    F: FnMut(Request) -> Ret,
    Ret: Future<Output = Result<Response, ServiceError>>,

    ensures
        app.handler() == f,
{
    AppFn { f }
}

} // verus!
