//! The text of an SMTP submission session: every line the mailer writes,
//! in order, computed from sender, recipients, subject and body.  The
//! shell around the library owns the socket and the TLS upgrade and
//! writes these lines out; none of that protocol plumbing lives here.

use vstd::prelude::*;
use vstd::string::StringExecFns;
use vstd::string::StringSliceAdditionalSpecFns;
use base64::Engine as _;
use base64::engine::general_purpose::STANDARD;
use crate::text::{split_commas, trim_of, parse_recipients};

verus! {

/// What base64's standard-alphabet engine produces for the given bytes.
pub uninterp spec fn base64_of(bytes: Seq<u8>) -> Seq<char>;

/// Relies on base64's `Engine::encode` with the `STANDARD` engine: its
/// result is a function of the input bytes alone.
#[verifier::external_body]
fn base64_encode(bytes: &[u8]) -> (r: String)
    ensures
        r@ == base64_of(bytes@),
{
    STANDARD.encode(bytes)
}

/// One `RCPT TO` line per recipient, in order.
fn rcpt_lines(rs: &Vec<String>) -> (r: Vec<String>)
    ensures
        r@.len() == rs@.len(),
        forall|i: int|
            0 <= i < r@.len() ==> (#[trigger] r@[i])@ == "RCPT TO:<"@ + rs@[i]@ + ">\r\n"@,
{
    let mut out: Vec<String> = Vec::new();
    let mut k: usize = 0;
    while k < rs.len()
        invariant
            k <= rs@.len(),
            out@.len() == k,
            forall|i: int|
                0 <= i < k ==> (#[trigger] out@[i])@ == "RCPT TO:<"@ + rs@[i]@ + ">\r\n"@,
        decreases rs@.len() - k,
    {
        let mut line = "RCPT TO:<".to_owned();
        line.append(rs[k].as_str());
        line.append(">\r\n");
        out.push(line);
        k = k + 1;
    }
    out
}

/// The lines of one mail submission: greeting, TLS upgrade request,
/// renewed greeting, login with base64-encoded credentials, envelope,
/// one recipient line per direct recipient and per comma-separated
/// carbon-copy entry, then the data block and the farewell.
pub fn smtp_commands(
    sender: &str,
    cc: &str,
    recipients: &Vec<String>,
    subject: &str,
    body: &str,
    password: &str,
) -> (r: Vec<String>)
    ensures
        r@.len() == 11 + recipients@.len() + split_commas(cc@).len(),
        r@[0]@ == "EHLO example.com\r\n"@,
        r@[1]@ == "STARTTLS\r\n"@,
        r@[2]@ == "EHLO example.com\r\n"@,
        r@[3]@ == "AUTH LOGIN\r\n"@,
        r@[4]@ == base64_of(sender.spec_bytes()) + "\r\n"@,
        r@[5]@ == base64_of(password.spec_bytes()) + "\r\n"@,
        r@[6]@ == "MAIL FROM:<"@ + sender@ + ">\r\n"@,
        forall|i: int|
            0 <= i < recipients@.len() ==> (#[trigger] r@[7 + i])@ == "RCPT TO:<"@
                + recipients@[i]@ + ">\r\n"@,
        forall|i: int|
            0 <= i < split_commas(cc@).len() ==> (#[trigger] r@[7 + recipients@.len() as int + i])@
                == "RCPT TO:<"@ + trim_of(split_commas(cc@)[i]) + ">\r\n"@,
        r@[7 + recipients@.len() as int + split_commas(cc@).len() as int]@ == "DATA\r\n"@,
        r@[8 + recipients@.len() as int + split_commas(cc@).len() as int]@ == "From: "@ + sender@
            + "\r\nTo: undisclosed-recipients\r\nCC: "@ + cc@ + "\r\nSubject: "@ + subject@
            + "\r\nContent-Type: text/html; charset=UTF-8\r\n\r\n"@,
        r@[9 + recipients@.len() as int + split_commas(cc@).len() as int]@ == body@ + "\r\n.\r\n"@,
        r@[10 + recipients@.len() as int + split_commas(cc@).len() as int]@ == "QUIT\r\n"@,
{
    let mut cmds: Vec<String> = Vec::new();
    cmds.push("EHLO example.com\r\n".to_owned());
    cmds.push("STARTTLS\r\n".to_owned());
    cmds.push("EHLO example.com\r\n".to_owned());
    cmds.push("AUTH LOGIN\r\n".to_owned());
    let mut user_line = base64_encode(sender.as_bytes());
    user_line.append("\r\n");
    cmds.push(user_line);
    let mut pass_line = base64_encode(password.as_bytes());
    pass_line.append("\r\n");
    cmds.push(pass_line);
    let mut mail_from = "MAIL FROM:<".to_owned();
    mail_from.append(sender);
    mail_from.append(">\r\n");
    cmds.push(mail_from);
    let mut direct = rcpt_lines(recipients);
    cmds.append(&mut direct);
    let cc_list = parse_recipients(cc);
    let mut copied = rcpt_lines(&cc_list);
    cmds.append(&mut copied);
    cmds.push("DATA\r\n".to_owned());
    let mut headers = "From: ".to_owned();
    headers.append(sender);
    headers.append("\r\nTo: undisclosed-recipients\r\nCC: ");
    headers.append(cc);
    headers.append("\r\nSubject: ");
    headers.append(subject);
    headers.append("\r\nContent-Type: text/html; charset=UTF-8\r\n\r\n");
    cmds.push(headers);
    let mut data = body.to_owned();
    data.append("\r\n.\r\n");
    cmds.push(data);
    cmds.push("QUIT\r\n".to_owned());
    cmds
}

} // verus!
