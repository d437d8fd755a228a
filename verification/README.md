# totp_cli

A terminal viewer for time-based one-time passwords (RFC 6238), written in
Verus. `src/` is the verified library:

- `otp`, `totp`: HOTP/TOTP codes, dynamic truncation, time steps;
- `config`: the `otpauth://totp/NAME:ACCOUNT?secret=SECRET&issuer=ISSUER`
  line format and the configuration file made of such lines;
- `list_view`, `tui`: the selection and drawing state of the lists;
- `crypto`, `clock`: HMAC-SHA1 (`hmac`, `sha1`), base32 decoding (`base32`)
  and the system clock, behind trusted items with stated contracts;
- `text`: decimal rendering, padding, trimming.

`app/` holds the program: reading the file, the terminal loop (`crossterm`)
and the clipboard (`arboard`).
