# dyndns

A Cloudflare dynamic DNS client whose decisions are verified with Verus.

- `src/text.rs`: trimming, splitting, decimal rendering of integers.
- `src/ipv4.rs`: dotted-decimal IPv4 parsing and rendering, with the laws
  that rendering then parsing, and parsing then rendering, give back what
  was there.
- `src/envfile.rs`: finding `CLOUDFLARE_API_TOKEN` in `.env` files.
- `src/config.rs`: the configuration, where it is looked for, its checks,
  and `~` expansion of the cache path.
- `src/cloudflare.rs`: request URLs, the update payload, error messages and
  the handling of Cloudflare's replies.
- `src/sync.rs`: asking the IP endpoints in turn, the cache check, and the
  plan for the DNS record, with its laws.
- `app/main.rs`: the command line, files, HTTP and logging.
