# blitz_py

The verified core of a Python binding that renders HTML/CSS to images with
the Blitz engine (no browser, no GPU, no network).

`src/` is a Verus library. Its own logic is verified against its contracts;
the calls into `data-url`, `fontique` and `png` (and `String::push`) go
through small trusted wrappers marked `#[verifier::external_body]`, whose
contracts are taken on trust and say, in their doc comments, what they
claim of the outside code. The modules:

- `color`: the `color_scheme` and `background` options (`#rgb`, `#rrggbb`,
  `#rrggbbaa`), with laws relating the short, long and opaque forms.
- `limits`: output size limits, content-sized height, frame counts.
- `compose`: the document with extra CSS and `:root` custom properties
  appended; the output does not depend on the order of the properties.
- `style`: insertion or replacement of one inline style declaration; the
  edited style declares the property once, last.
- `dom`, `template`: the index of a template's elements by `id`, and the
  decisions of template edits.
- `fetch`: the resource policy (`data:` decoded, `file:` opt-in, network
  ignored), with `data_url` behind a trusted wrapper.
- `fonts`: font defaults through `parley`/`fontique`, stated over names
  for the collection's generic-family and fallback tables, its family
  lookup and the fonts a blob of bytes holds (for collections that are not
  shared).
- `png_out`: PNG output through `png`; the bytes returned are the named
  PNG file of the pixels.
- `request`: the checks every entry point runs, in order.

`app/` holds the PyO3 module, the worker thread of a template and the
rendering calls into Blitz, which work on floating-point geometry. It
installs the bundled Inter font from `assets/InterVariable.ttf` when the
package ships that file; without it, the defaults come from the system
fonts.
