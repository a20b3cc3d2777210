# xmla_ssas_rs

Client-side logic for Microsoft SQL Server Analysis Services spoken over
XMLA, SOAP and DIME framing on a TCP connection, written in Verus. Most
functions of the library carry a contract that Verus proves the code
against. Where a function calls the NTLM security package, its contract
says what holds whatever the package returns; the calls into outside crates
and std are small trusted wrappers whose contracts restate the outside
documentation; the tree that the XML parser builds is named rather than
described, and the texts of outside errors carry no contract.

## Layout

- `src/dime/`: DIME records and messages (reading, writing, validation),
  their options and type formats, and XPRESS decompression of compressed
  payloads. The laws that reading gives back what writing wrote stand in
  `record.rs` and `message.rs`.
- `src/xml/`: the element tree that the library reads responses from, the
  parse of a text into it (roxmltree), and the writing of start tags, end
  tags and escaped text (quick-xml).
- `src/xmla/`: Discover, Execute and Authenticate requests and their SOAP
  serialization; rowset and multidimensional dataset responses.
- `src/auth/`: the NTLM handshake step and the sealing and unsealing of
  messages in encryption blocks (sspi).
- `src/connection/`: options and credentials, the handshake as a sequence of
  steps from one server answer to the next request, and the requests and
  answers of a session.
- `src/text.rs`: decimal and binary formatting, integer and float literal
  checks with the texts of Rust's parse errors, trimming.
- `app/`: the TCP side: connecting, writing requests, reading answers until
  a whole DIME message has arrived, error types with `Display`, and reading
  cell values as floating-point numbers.
- `tests/`: tests on concrete values, including a whole NTLM handshake and
  sealed Discover and Execute exchanges against an sspi server.
