# maud_parse

A verified parser for HTML templates that are written as Rust tokens.

    p.lead {
        "Hello, " (name) "!"
        @if new { a href="/tour" "Take the tour" }
    }

`parse::parse` turns the tokens of such a template into a syntax tree, or into a message that says
why they are none. Its contract is exact: the result is what the grammar in `grammar` gives.

- `token`: token trees, and their mathematical view
- `ast`: the syntax tree, and its mathematical view
- `literal`: what a string literal denotes; the one call into `literalext`
- `scan`, `grammar`: the grammar
- `parse`: the parser
- `weight`, `progress`: why parsing comes to an end
- `sound`, `extend`, `laws`: what holds of every template
- `app/`: runs the parser on the tokens of a procedural macro

A string literal that is malformed, or that has a suffix, has no value: `parse` must not be called
on a template that renders one. By `sound::law_answer_if_decodable`, it may be called wherever all
literals can be decoded.
